//! Start-up: picking, and if needed installing, the way CPU temperatures will
//! be read.
use vstd::prelude::*;

use crate::hwinfo::HwinfoStatus;
use crate::lhm::{PawnIOStatus, PawnIOView};
use crate::text::{owned, text_of};

verus! {

/// The steps of the start-up, in their order.
#[derive(Debug, Clone, Copy, PartialEq, Eq, PartialOrd, Ord, Structural)]
pub enum BootStep {
    Hardware,
    SensorTools,
    Driver,
    Done,
}

/// How the driver stands.
#[derive(Debug, Clone, PartialEq)]
pub enum DriverState {
    /// A monitoring app already provides temperatures (or not Windows).
    NotNeeded,
    AlreadyInstalled,
    /// Installed by this session: the user is asked whether to keep it.
    InstalledNow,
    Failed(String),
    /// Needs administrator rights, which are missing.
    NoAdmin,
}

/// The contents of the driver's state.
pub ghost enum DriverView {
    NotNeeded,
    AlreadyInstalled,
    InstalledNow,
    Failed(Seq<char>),
    NoAdmin,
}

impl View for DriverState {
    type V = DriverView;

    open spec fn view(&self) -> DriverView {
        match *self {
            DriverState::NotNeeded => DriverView::NotNeeded,
            DriverState::AlreadyInstalled => DriverView::AlreadyInstalled,
            DriverState::InstalledNow => DriverView::InstalledNow,
            DriverState::Failed(s) => DriverView::Failed(s@),
            DriverState::NoAdmin => DriverView::NoAdmin,
        }
    }
}

/// A monitoring app that temperatures are read from.
#[derive(Debug, Clone, Copy, PartialEq, Eq, Structural)]
pub enum MonitoringApp {
    Hwinfo,
    Afterburner,
    Aida64,
    CoreTemp,
}

impl MonitoringApp {
    /// The app's name.
    pub open spec fn label(self) -> Seq<char> {
        match self {
            MonitoringApp::Hwinfo => "HWiNFO"@,
            MonitoringApp::Afterburner => "MSI Afterburner"@,
            MonitoringApp::Aida64 => "AIDA64"@,
            MonitoringApp::CoreTemp => "Core Temp"@,
        }
    }

    /// The app's name.
    pub fn name(self) -> (r: &'static str)
        ensures
            r@ == self.label(),
    {
        match self {
            MonitoringApp::Hwinfo => "HWiNFO",
            MonitoringApp::Afterburner => "MSI Afterburner",
            MonitoringApp::Aida64 => "AIDA64",
            MonitoringApp::CoreTemp => "Core Temp",
        }
    }
}

/// How temperatures will be read.
#[derive(Debug, Clone)]
pub struct SensorSetup {
    /// Directory of the embedded LibreHardwareMonitor helper, when used.
    pub lhm_dir: Option<String>,
    /// Monitoring app that is read from.
    pub monitoring_app: Option<MonitoringApp>,
    pub driver: DriverState,
    pub elevated: bool,
    /// HWiNFO is running but its "Shared Memory Support" is off.
    pub hwinfo_shared_memory_off: bool,
}

/// The setup's contents.
pub ghost struct SetupView {
    pub lhm_dir: Option<Seq<char>>,
    pub monitoring_app: Option<MonitoringApp>,
    pub driver: DriverView,
    pub elevated: bool,
    pub hwinfo_shared_memory_off: bool,
}

impl View for SensorSetup {
    type V = SetupView;

    open spec fn view(&self) -> SetupView {
        SetupView {
            lhm_dir: text_of(self.lhm_dir),
            monitoring_app: self.monitoring_app,
            driver: self.driver@,
            elevated: self.elevated,
            hwinfo_shared_memory_off: self.hwinfo_shared_memory_off,
        }
    }
}

/// What was found of the monitoring apps: whether each is there and, if so,
/// whether it has a CPU temperature.
#[derive(Clone, Copy)]
pub struct Found {
    pub hwinfo: HwinfoStatus,
    pub hwinfo_cpu: bool,
    pub afterburner: Option<bool>,
    pub aida64: Option<bool>,
    pub coretemp: Option<bool>,
}

/// The app to read from, and whether it has a CPU temperature: the first that
/// is there.
pub open spec fn app_of(f: Found) -> Option<(MonitoringApp, bool)> {
    if f.hwinfo == HwinfoStatus::SharedMemoryReadable {
        Some((MonitoringApp::Hwinfo, f.hwinfo_cpu))
    } else if f.afterburner is Some {
        Some((MonitoringApp::Afterburner, f.afterburner->0))
    } else if f.aida64 is Some {
        Some((MonitoringApp::Aida64, f.aida64->0))
    } else if f.coretemp is Some {
        Some((MonitoringApp::CoreTemp, f.coretemp->0))
    } else {
        None
    }
}

/// A running app has a CPU temperature, so no driver is needed.
pub open spec fn covered(f: Found) -> bool {
    app_of(f) is Some && (app_of(f)->0).1
}

/// The way temperatures are read, before the driver is seen to.
pub open spec fn first_setup(f: Found, elevated: bool) -> SetupView {
    SetupView {
        lhm_dir: None,
        monitoring_app: match app_of(f) {
            Some((app, _)) => Some(app),
            None => None,
        },
        driver: if !covered(f) && !elevated {
            DriverView::NoAdmin
        } else {
            DriverView::NotNeeded
        },
        elevated,
        hwinfo_shared_memory_off: f.hwinfo == HwinfoStatus::ProcessRunningNoSharedMem,
    }
}

/// The driver must be seen to.
pub open spec fn sees_to_driver(f: Found, elevated: bool) -> bool {
    !covered(f) && elevated
}

/// HWiNFO is read where it can be, else Afterburner, else AIDA64, else Core Temp.
/// The driver is needed exactly where what is read does not tell the CPU's
/// temperature; then it is seen to with administrator rights, and without them
/// that is said.
pub proof fn lemma_sensor_setup(f: Found, elevated: bool)
    ensures
        ({
            let s = first_setup(f, elevated);
            let readable = f.hwinfo == HwinfoStatus::SharedMemoryReadable;
            let told = if readable {
                f.hwinfo_cpu
            } else if f.afterburner is Some {
                f.afterburner->0
            } else if f.aida64 is Some {
                f.aida64->0
            } else {
                f.coretemp == Some(true)
            };
            &&& s.monitoring_app == Some(MonitoringApp::Hwinfo) <==> readable
            &&& s.monitoring_app == Some(MonitoringApp::Afterburner) <==> !readable && f.afterburner
                is Some
            &&& s.monitoring_app == Some(MonitoringApp::Aida64) <==> !readable && f.afterburner
                is None && f.aida64 is Some
            &&& s.monitoring_app == Some(MonitoringApp::CoreTemp) <==> !readable && f.afterburner
                is None && f.aida64 is None && f.coretemp is Some
            &&& sees_to_driver(f, elevated) <==> !told && elevated
            &&& s.driver == DriverView::NoAdmin <==> !told && !elevated
            &&& s.driver == DriverView::NotNeeded <==> told || elevated
            &&& s.hwinfo_shared_memory_off <==> f.hwinfo == HwinfoStatus::ProcessRunningNoSharedMem
        }),
{
}

/// Picks the way temperatures are read, and tells whether the driver must be
/// seen to: it must unless an app covers it, and needs administrator rights.
pub fn sensor_setup(f: Found, elevated: bool) -> (r: (SensorSetup, bool))
    ensures
        r.0@ == first_setup(f, elevated),
        r.1 == sees_to_driver(f, elevated),
{
    let app: Option<(MonitoringApp, bool)> = if f.hwinfo == HwinfoStatus::SharedMemoryReadable {
        Some((MonitoringApp::Hwinfo, f.hwinfo_cpu))
    } else {
        match (f.afterburner, f.aida64, f.coretemp) {
            (Some(c), _, _) => Some((MonitoringApp::Afterburner, c)),
            (None, Some(c), _) => Some((MonitoringApp::Aida64, c)),
            (None, None, Some(c)) => Some((MonitoringApp::CoreTemp, c)),
            (None, None, None) => None,
        }
    };
    let (monitoring_app, has_cpu) = match app {
        Some((a, c)) => (Some(a), c),
        None => (None, false),
    };
    let setup = SensorSetup {
        lhm_dir: None,
        monitoring_app,
        driver: if !has_cpu && !elevated {
            DriverState::NoAdmin
        } else {
            DriverState::NotNeeded
        },
        elevated,
        hwinfo_shared_memory_off: f.hwinfo == HwinfoStatus::ProcessRunningNoSharedMem,
    };
    (setup, !has_cpu && elevated)
}

/// The driver's state by how its setup went.
pub open spec fn driver_after(s: PawnIOView) -> DriverView {
    match s {
        PawnIOView::AlreadyInstalled => DriverView::AlreadyInstalled,
        PawnIOView::Installed => DriverView::InstalledNow,
        PawnIOView::Failed(e) => DriverView::Failed(e),
        PawnIOView::InstallerMissing => DriverView::Failed("PawnIO installer missing"@),
    }
}

/// Completes the setup with the helper's directory and the driver's state.
pub fn with_driver(setup: SensorSetup, dir: Option<String>, status: PawnIOStatus) -> (r:
    SensorSetup)
    ensures
        r@ == (SetupView {
            lhm_dir: text_of(dir),
            driver: driver_after(status@),
            ..setup@
        }),
{
    let driver = match status {
        PawnIOStatus::AlreadyInstalled => DriverState::AlreadyInstalled,
        PawnIOStatus::Installed => DriverState::InstalledNow,
        PawnIOStatus::Failed(e) => DriverState::Failed(e),
        PawnIOStatus::InstallerMissing => DriverState::Failed(owned("PawnIO installer missing")),
    };
    SensorSetup {
        lhm_dir: dir,
        monitoring_app: setup.monitoring_app,
        driver,
        elevated: setup.elevated,
        hwinfo_shared_memory_off: setup.hwinfo_shared_memory_off,
    }
}

/// The setup of a machine that needs no driver.
pub fn plain_setup(elevated: bool) -> (r: SensorSetup)
    ensures
        r@ == (SetupView {
            lhm_dir: None,
            monitoring_app: None,
            driver: DriverView::NotNeeded,
            elevated,
            hwinfo_shared_memory_off: false,
        }),
{
    SensorSetup {
        lhm_dir: None,
        monitoring_app: None,
        driver: DriverState::NotNeeded,
        elevated,
        hwinfo_shared_memory_off: false,
    }
}

} // verus!
