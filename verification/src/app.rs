//! The interface's state: screens, forms, what is under way, and how input and
//! events change it.
//!
//! Nothing here draws, waits or talks to the outside.  What is to be done
//! outside comes back as a list of effects, and what comes of it is told to
//! the state as events.
use vstd::prelude::*;

use crate::api::{
    page, page_url, root_of, site_root, ApiError, ApiErrorView, Comparison, CompareRequest,
    DebugLogPayload, FeedbackPayload, SubmissionPayload, Submitted,
};
use crate::diagnostics::STRESS_SECONDS;
use crate::engine::{judgement, verdict, PlanView, Progress, TestKind, TestPlan, Verdict};
use crate::form::{
    edit_form, edited, first_form, turn, turned, Field, Form, FormError, FormView, LaunchOptions,
    COOLING,
};
use crate::gpus::{best_place, default_index, gpu_of, gpu_views, GpuDevice, GpuKind, GpuView};
use crate::hardware::HardwareInfo;
use crate::input::{is_letter, letter, Key, KeyCode, TextInput, TextView};
use crate::payload::{
    block_reason, blocked, comparison, is_local, local_site, payload_of, request_of, submission,
    BlockReason, Details, DetailsView, PayloadView, RequestView, MIN_SUBMIT_SECS,
};
use crate::sensors::SECOND;
use crate::settings::{LastResult, LastView, Moment, Settings, SettingsView};
use crate::setup::{DriverState, SensorSetup};
use crate::text::{copy_text, join_lines, joined, line_views, owned, prefixed, same, text_of};

verus! {

/// How long a message stays, in nanoseconds.
pub const TOAST_FOR: u64 = 5_000_000_000;

/// The languages, by their codes.
pub const LANGUAGES: [&'static str; 9] = ["en", "fr", "es", "de", "pt", "tr", "ru", "ko", "ar"];

// ---------------------------------------------------------------------------
// Feedback

/// A row of the feedback form.
#[derive(Debug, Clone, Copy, PartialEq, Eq, Structural)]
pub enum FbField {
    Rating,
    Category,
    Message,
    Email,
    Include,
    Send,
}

/// What feedback is about, as the API names it.
pub const FB_CATEGORIES: [&'static str; 4] = ["bug", "idea", "praise", "other"];

/// How the sending of feedback stands.
#[derive(Debug, Clone)]
pub enum FbState {
    Editing,
    Sending,
    Sent,
    Failed(String),
}

/// The screen that feedback is sent from.
#[derive(Debug, Clone, Copy, PartialEq, Eq, Structural)]
pub enum FbContext {
    Home,
    Options,
    Running,
    Results,
    Diagnostics,
}

impl FbContext {
    /// The screen as the API names it.
    pub open spec fn code(self) -> Seq<char> {
        match self {
            FbContext::Home => "home"@,
            FbContext::Options => "options"@,
            FbContext::Running => "running"@,
            FbContext::Results => "results"@,
            FbContext::Diagnostics => "diagnostics"@,
        }
    }

    /// The screen as the API names it.
    pub fn name(self) -> (r: &'static str)
        ensures
            r@ == self.code(),
    {
        match self {
            FbContext::Home => "home",
            FbContext::Options => "options",
            FbContext::Running => "running",
            FbContext::Results => "results",
            FbContext::Diagnostics => "diagnostics",
        }
    }
}

/// The feedback form.
#[derive(Debug, Clone)]
pub struct FeedbackForm {
    pub rating: Option<u8>,
    /// Index into FB_CATEGORIES
    pub category: usize,
    pub message: TextInput,
    pub email: TextInput,
    pub include_info: bool,
    pub focus: FbField,
    pub state: FbState,
    /// The message is missing.
    pub error: bool,
    pub context: FbContext,
}

/// The contents of a sending's state.
pub ghost enum FbStateView {
    Editing,
    Sending,
    Sent,
    Failed(Seq<char>),
}

impl View for FbState {
    type V = FbStateView;

    open spec fn view(&self) -> FbStateView {
        match *self {
            FbState::Editing => FbStateView::Editing,
            FbState::Sending => FbStateView::Sending,
            FbState::Sent => FbStateView::Sent,
            FbState::Failed(s) => FbStateView::Failed(s@),
        }
    }
}

/// The feedback form's contents.
pub ghost struct FeedbackView {
    pub rating: Option<u8>,
    pub category: int,
    pub message: TextView,
    pub email: TextView,
    pub include_info: bool,
    pub focus: FbField,
    pub state: FbStateView,
    pub error: bool,
    pub context: FbContext,
}

impl View for FeedbackForm {
    type V = FeedbackView;

    open spec fn view(&self) -> FeedbackView {
        FeedbackView {
            rating: self.rating,
            category: self.category as int,
            message: self.message@,
            email: self.email@,
            include_info: self.include_info,
            focus: self.focus,
            state: self.state@,
            error: self.error,
            context: self.context,
        }
    }
}

/// The row behind another, the last behind itself.
pub open spec fn fb_next(f: FbField) -> FbField {
    match f {
        FbField::Rating => FbField::Category,
        FbField::Category => FbField::Message,
        FbField::Message => FbField::Email,
        FbField::Email => FbField::Include,
        FbField::Include => FbField::Send,
        FbField::Send => FbField::Send,
    }
}

/// The row in front of another, the first in front of itself.
pub open spec fn fb_prev(f: FbField) -> FbField {
    match f {
        FbField::Rating => FbField::Rating,
        FbField::Category => FbField::Rating,
        FbField::Message => FbField::Category,
        FbField::Email => FbField::Message,
        FbField::Include => FbField::Email,
        FbField::Send => FbField::Include,
    }
}

fn next_row(f: FbField) -> (r: FbField)
    ensures
        r == fb_next(f),
{
    match f {
        FbField::Rating => FbField::Category,
        FbField::Category => FbField::Message,
        FbField::Message => FbField::Email,
        FbField::Email => FbField::Include,
        FbField::Include => FbField::Send,
        FbField::Send => FbField::Send,
    }
}

fn prev_row(f: FbField) -> (r: FbField)
    ensures
        r == fb_prev(f),
{
    match f {
        FbField::Rating => FbField::Rating,
        FbField::Category => FbField::Rating,
        FbField::Message => FbField::Category,
        FbField::Email => FbField::Message,
        FbField::Include => FbField::Email,
        FbField::Send => FbField::Include,
    }
}

impl FeedbackView {
    /// The choices exist, and the texts are sound.
    pub open spec fn wf(self) -> bool {
        &&& 0 <= self.category < 4
        &&& self.message.wf()
        &&& self.email.wf()
        &&& self.rating is Some ==> 1 <= self.rating->0 <= 5
    }

    /// An empty form.
    pub open spec fn blank(context: FbContext) -> FeedbackView {
        FeedbackView {
            rating: None,
            category: 0,
            message: TextView::of(Seq::empty(), 2000),
            email: TextView::of(Seq::empty(), 200),
            include_info: true,
            focus: FbField::Rating,
            state: FbStateView::Editing,
            error: false,
            context,
        }
    }

    /// The form is on its way or gone: it takes no more keys.
    pub open spec fn closed(self) -> bool {
        self.state is Sending || self.state is Sent
    }

    /// The form after a key that the row with the focus takes.
    pub open spec fn row_keyed(self, key: Key) -> FeedbackView {
        let end = self.message.at(self.message.value.len() as int);
        match self.focus {
            FbField::Rating => match key.code {
                KeyCode::Char(c) if '1' <= c <= '5' => FeedbackView {
                    rating: Some((c as u8 - 48) as u8),
                    ..self
                },
                KeyCode::Left => FeedbackView {
                    rating: Some(
                        match self.rating {
                            Some(r) if r > 1 => (r - 1) as u8,
                            _ => 1u8,
                        },
                    ),
                    ..self
                },
                KeyCode::Right => FeedbackView {
                    rating: Some(
                        match self.rating {
                            Some(r) if r >= 5 => 5u8,
                            Some(r) => (r + 1) as u8,
                            None => 1u8,
                        },
                    ),
                    ..self
                },
                _ => self,
            },
            FbField::Category => match key.code {
                KeyCode::Left => FeedbackView { category: turned(self.category, 4, true), ..self },
                KeyCode::Right => FeedbackView {
                    category: turned(self.category, 4, false),
                    ..self
                },
                _ => self,
            },
            FbField::Message => match key.code {
                KeyCode::Char(c) if !key.ctrl => FeedbackView {
                    message: end.inserted(c),
                    error: false,
                    ..self
                },
                KeyCode::Backspace => FeedbackView { message: end.erased(), ..self },
                _ => self,
            },
            FbField::Email => FeedbackView { email: self.email.handled(key), ..self },
            FbField::Include => if key.code == KeyCode::Char(' ') || key.code == KeyCode::Left
                || key.code == KeyCode::Right {
                FeedbackView { include_info: !self.include_info, ..self }
            } else {
                self
            },
            FbField::Send => self,
        }
    }

    /// The form after a key, and whether it is to be sent.  The message is
    /// edited at the end only; it wraps across lines.
    pub open spec fn keyed(self, key: Key) -> (FeedbackView, bool) {
        if self.closed() {
            (self, false)
        } else {
            match key.code {
                KeyCode::Tab | KeyCode::Down => (
                    FeedbackView { focus: fb_next(self.focus), ..self },
                    false,
                ),
                KeyCode::BackTab | KeyCode::Up => (
                    FeedbackView { focus: fb_prev(self.focus), ..self },
                    false,
                ),
                KeyCode::Enter => if self.focus == FbField::Send {
                    (self, true)
                } else {
                    (FeedbackView { focus: fb_next(self.focus), ..self }, false)
                },
                _ => (self.row_keyed(key), false),
            }
        }
    }

    /// The form with a text pasted into the row that has the focus.
    pub open spec fn pasted(self, s: Seq<char>) -> FeedbackView {
        match self.focus {
            FbField::Message => FeedbackView {
                message: self.message.pasted(s, s.len() as int),
                ..self
            },
            FbField::Email => FeedbackView {
                email: self.email.pasted(s, s.len() as int),
                ..self
            },
            _ => self,
        }
    }
}

/// Keys keep a feedback form sound: the rating stays between 1 and 5, and the
/// category is one of the choices.
pub proof fn lemma_feedback_keyed(f: FeedbackView, key: Key)
    requires
        f.wf(),
    ensures
        f.keyed(key).0.wf(),
{
}

impl FeedbackForm {
    /// An empty form.
    pub fn new(context: FbContext) -> (r: FeedbackForm)
        ensures
            r@ == FeedbackView::blank(context),
            r@.wf(),
    {
        proof {
            reveal_strlit("");
            assert(""@ =~= Seq::empty());
        }
        FeedbackForm {
            rating: None,
            category: 0,
            message: TextInput::new("", 2000),
            email: TextInput::new("", 200),
            include_info: true,
            focus: FbField::Rating,
            state: FbState::Editing,
            error: false,
            context,
        }
    }

    fn is_closed(&self) -> (r: bool)
        ensures
            r == self@.closed(),
    {
        matches!(self.state, FbState::Sending | FbState::Sent)
    }

    fn row_key(&mut self, key: &Key)
        requires
            old(self)@.wf(),
        ensures
            final(self)@ == old(self)@.row_keyed(*key),
            final(self)@.wf(),
    {
        match self.focus {
            FbField::Rating => match key.code {
                KeyCode::Char(c) => {
                    if '1' <= c && c <= '5' {
                        self.rating = Some(c as u8 - 48);
                    }
                },
                KeyCode::Left => {
                    self.rating = Some(
                        match self.rating {
                            Some(r) => if r > 1 {
                                r - 1
                            } else {
                                1
                            },
                            None => 1,
                        },
                    );
                },
                KeyCode::Right => {
                    self.rating = Some(
                        match self.rating {
                            Some(r) => if r >= 5 {
                                5
                            } else {
                                r + 1
                            },
                            None => 1,
                        },
                    );
                },
                _ => {},
            },
            FbField::Category => match key.code {
                KeyCode::Left => {
                    self.category = turn(self.category, 4, true);
                },
                KeyCode::Right => {
                    self.category = turn(self.category, 4, false);
                },
                _ => {},
            },
            FbField::Message => match key.code {
                KeyCode::Char(c) => {
                    if !key.ctrl {
                        self.message.cursor = self.message.len();
                        self.message.insert(c);
                        self.error = false;
                    }
                },
                KeyCode::Backspace => {
                    self.message.cursor = self.message.len();
                    self.message.backspace();
                },
                _ => {},
            },
            FbField::Email => {
                self.email.handle(key);
            },
            FbField::Include => {
                if key.code == KeyCode::Char(' ') || key.code == KeyCode::Left || key.code
                    == KeyCode::Right {
                    self.include_info = !self.include_info;
                }
            },
            FbField::Send => {},
        }
    }

    /// Handles a key; returns true if the form is to be sent.
    pub fn key(&mut self, key: &Key) -> (r: bool)
        requires
            old(self)@.wf(),
        ensures
            (final(self)@, r) == old(self)@.keyed(*key),
            final(self)@.wf(),
    {
        if self.is_closed() {
            return false;
        }
        match key.code {
            KeyCode::Tab | KeyCode::Down => {
                self.focus = next_row(self.focus);
                return false;
            },
            KeyCode::BackTab | KeyCode::Up => {
                self.focus = prev_row(self.focus);
                return false;
            },
            KeyCode::Enter => {
                if self.focus == FbField::Send {
                    return true;
                }
                self.focus = next_row(self.focus);
                return false;
            },
            _ => {},
        }
        self.row_key(key);
        false
    }

    fn paste(&mut self, s: &str)
        requires
            old(self)@.wf(),
        ensures
            final(self)@ == old(self)@.pasted(s@),
            final(self)@.wf(),
    {
        match self.focus {
            FbField::Message => self.message.insert_str(s),
            FbField::Email => self.email.insert_str(s),
            _ => {},
        }
    }
}

// ---------------------------------------------------------------------------
// Results, diagnostics, dialogs

/// How the submission of a result stands.
#[derive(Debug, Clone)]
pub enum SubmitState {
    /// About to be sent (a completed test submits straight away).
    Ready,
    Sending,
    Done { url: String },
    Failed { reason: String, retry: bool },
    /// Can't be submitted; the reason is shown.
    Blocked(BlockReason),
}

/// The contents of a submission's state.
pub ghost enum SubmitView {
    Ready,
    Sending,
    Done { url: Seq<char> },
    Failed { reason: Seq<char>, retry: bool },
    Blocked(BlockReason),
}

impl View for SubmitState {
    type V = SubmitView;

    open spec fn view(&self) -> SubmitView {
        match *self {
            SubmitState::Ready => SubmitView::Ready,
            SubmitState::Sending => SubmitView::Sending,
            SubmitState::Done { url } => SubmitView::Done { url: url@ },
            SubmitState::Failed { reason, retry } => SubmitView::Failed { reason: reason@, retry },
            SubmitState::Blocked(b) => SubmitView::Blocked(b),
        }
    }
}

/// How the comparison of a result stands.
#[derive(Debug, Clone)]
pub enum CompareState {
    Idle,
    Loading,
    Ready(Comparison),
    Failed,
}

/// A finished run.
#[derive(Debug, Clone)]
pub struct ResultsState {
    pub plan: TestPlan,
    pub progress: Progress,
    pub verdict: Verdict,
    pub submit: SubmitState,
    pub compare: CompareState,
}

/// The contents of a finished run.
pub ghost struct ResultsView {
    pub plan: PlanView,
    pub progress: Progress,
    pub verdict: Verdict,
    pub submit: SubmitView,
    pub compare: CompareState,
}

impl View for ResultsState {
    type V = ResultsView;

    open spec fn view(&self) -> ResultsView {
        ResultsView {
            plan: self.plan@,
            progress: self.progress,
            verdict: self.verdict,
            submit: self.submit@,
            compare: self.compare,
        }
    }
}

/// How the diagnostics stand.
#[derive(Debug, Clone)]
pub enum DiagStage {
    Intro,
    Collecting,
    /// The 30 s stress run happens on the Running screen.
    Stress,
    Uploading,
    Done { url: String },
    Failed(String),
}

/// The contents of the diagnostics' stage.
pub ghost enum StageView {
    Intro,
    Collecting,
    Stress,
    Uploading,
    Done { url: Seq<char> },
    Failed(Seq<char>),
}

impl View for DiagStage {
    type V = StageView;

    open spec fn view(&self) -> StageView {
        match *self {
            DiagStage::Intro => StageView::Intro,
            DiagStage::Collecting => StageView::Collecting,
            DiagStage::Stress => StageView::Stress,
            DiagStage::Uploading => StageView::Uploading,
            DiagStage::Done { url } => StageView::Done { url: url@ },
            DiagStage::Failed(s) => StageView::Failed(s@),
        }
    }
}

/// The diagnostics.
#[derive(Debug, Clone)]
pub struct DiagState {
    pub lines: Vec<String>,
    pub stage: DiagStage,
    /// Lines scrolled up from the bottom.
    pub scroll: usize,
    /// Where a local copy of the log was kept.
    pub saved: Option<String>,
}

/// The contents of the diagnostics.
pub ghost struct DiagView {
    pub lines: Seq<Seq<char>>,
    pub stage: StageView,
    pub scroll: int,
    pub saved: Option<Seq<char>>,
}

impl View for DiagState {
    type V = DiagView;

    open spec fn view(&self) -> DiagView {
        DiagView {
            lines: line_views(self.lines@),
            stage: self.stage@,
            scroll: self.scroll as int,
            saved: text_of(self.saved),
        }
    }
}

/// A screen.
#[derive(Debug, Clone, Copy, PartialEq, Eq, Structural)]
pub enum Screen {
    Boot,
    Home,
    Options,
    Confirm,
    Running,
    Results,
    Diagnostics,
}

/// A dialog over the screen.
#[derive(Debug, Clone)]
pub enum Modal {
    Feedback(FeedbackForm),
    Help,
    Language { cursor: usize },
    StopTest,
    EditDetails(Form),
    Pawnio { removing: bool, error: Option<String> },
}

/// A dialog's contents.
pub ghost enum ModalView {
    Feedback(FeedbackView),
    Help,
    Language { cursor: int },
    StopTest,
    EditDetails(FormView),
    Pawnio { removing: bool, error: Option<Seq<char>> },
}

impl View for Modal {
    type V = ModalView;

    open spec fn view(&self) -> ModalView {
        match *self {
            Modal::Feedback(f) => ModalView::Feedback(f@),
            Modal::Help => ModalView::Help,
            Modal::Language { cursor } => ModalView::Language { cursor: cursor as int },
            Modal::StopTest => ModalView::StopTest,
            Modal::EditDetails(f) => ModalView::EditDetails(f@),
            Modal::Pawnio { removing, error } => ModalView::Pawnio {
                removing,
                error: text_of(error),
            },
        }
    }
}

impl ModalView {
    /// The dialog's forms are sound.
    pub open spec fn wf(self) -> bool {
        match self {
            ModalView::Feedback(f) => f.wf(),
            ModalView::EditDetails(f) => f.wf(),
            ModalView::Language { cursor } => 0 <= cursor < 9,
            _ => true,
        }
    }
}

/// The contents of an optional dialog.
pub open spec fn modal_of(m: Option<Modal>) -> Option<ModalView> {
    match m {
        Some(x) => Some(x@),
        None => None,
    }
}

/// Something the user can trigger by key or click.
#[derive(Debug, Clone, Copy, PartialEq, Eq, Structural)]
pub enum Action {
    Continue,
    Back,
    StartTest,
    StopTest,
    KeepRunning,
    ConfirmStop,
    Submit,
    EditDetails,
    SaveDetails,
    OpenResults,
    CopyLink,
    RunAgain,
    Feedback,
    Support,
    Help,
    Language,
    SetLanguage(usize),
    CloseModal,
    Quit,
    Diagnostics,
    StartDiagnostics,
    PrevGpu,
    NextGpu,
    Focus(Field),
    Choose(Field, usize),
    FbFocus(FbField),
    FbRating(u8),
    FbCategory(usize),
    FbToggleInclude,
    FbSend,
    KeepPawnio,
    UninstallPawnio,
}

impl Action {
    /// What is chosen exists.
    pub open spec fn wf(self) -> bool {
        match self {
            Action::Choose(Field::Test, v) => v < 3,
            Action::Choose(Field::Duration, v) => v <= 4,
            Action::Choose(Field::Cooling, v) => v < 7,
            Action::FbRating(r) => 1 <= r <= 5,
            Action::FbCategory(c) => c < 4,
            _ => true,
        }
    }
}

/// A short message.
#[derive(Debug, Clone)]
pub enum Toast {
    Opened(String),
    OpenFailed(String),
    Copied,
    CopyFailed,
}

/// A message's contents.
pub ghost enum ToastView {
    Opened(Seq<char>),
    OpenFailed(Seq<char>),
    Copied,
    CopyFailed,
}

impl View for Toast {
    type V = ToastView;

    open spec fn view(&self) -> ToastView {
        match *self {
            Toast::Opened(s) => ToastView::Opened(s@),
            Toast::OpenFailed(s) => ToastView::OpenFailed(s@),
            Toast::Copied => ToastView::Copied,
            Toast::CopyFailed => ToastView::CopyFailed,
        }
    }
}

/// What is to be done outside.
#[derive(Debug, Clone)]
pub enum Effect {
    SaveSettings,
    /// Begin to read the sensors.
    StartSensors { lhm_dir: Option<String>, gpu: Option<GpuDevice>, gpu_count: usize, demo: bool },
    /// Read another card's sensors from here on.
    SelectGpu(Option<GpuDevice>),
    StartTest(TestPlan),
    /// Stop the test that runs.
    StopTest,
    Submit(SubmissionPayload),
    Compare(CompareRequest),
    /// Open a page and tell the user how that went.
    OpenUrl(String),
    /// Open a page, and tell the user if it opened.
    OpenResult(String),
    /// Open a page.
    OpenQuietly(String),
    Copy(String),
    SendFeedback { payload: FeedbackPayload, include_info: bool },
    CollectDiagnostics,
    /// Keep a local copy of the log, and send it.
    UploadLog(DebugLogPayload),
    RemoveDriver,
}

/// The contents of feedback to send.
pub ghost struct FbPayloadView {
    pub rating: Option<u8>,
    pub category: Seq<char>,
    pub message: Seq<char>,
    pub email: Option<Seq<char>>,
    pub cli_version: Seq<char>,
    pub os: Option<Seq<char>>,
    pub cpu_model: Option<Seq<char>>,
    pub gpu_model: Option<Seq<char>>,
    pub locale: Seq<char>,
    pub context: Seq<char>,
    pub diagnostics: Option<Seq<char>>,
    pub session_id: Option<Seq<char>>,
}

impl View for FeedbackPayload {
    type V = FbPayloadView;

    open spec fn view(&self) -> FbPayloadView {
        FbPayloadView {
            rating: self.rating,
            category: self.category@,
            message: self.message@,
            email: text_of(self.email),
            cli_version: self.cli_version@,
            os: text_of(self.os),
            cpu_model: text_of(self.cpu_model),
            gpu_model: text_of(self.gpu_model),
            locale: self.locale@,
            context: self.context@,
            diagnostics: text_of(self.diagnostics),
            session_id: text_of(self.session_id),
        }
    }
}

/// The contents of a log to send.
pub ghost struct LogView {
    pub log: Seq<char>,
    pub cpu_model: Option<Seq<char>>,
    pub gpu_model: Option<Seq<char>>,
    pub os: Option<Seq<char>>,
    pub cli_version: Option<Seq<char>>,
}

impl View for DebugLogPayload {
    type V = LogView;

    open spec fn view(&self) -> LogView {
        LogView {
            log: self.log@,
            cpu_model: text_of(self.cpu_model),
            gpu_model: text_of(self.gpu_model),
            os: text_of(self.os),
            cli_version: text_of(self.cli_version),
        }
    }
}

/// An effect's contents.
pub ghost enum EffectView {
    SaveSettings,
    StartSensors {
        lhm_dir: Option<Seq<char>>,
        gpu: Option<GpuView>,
        gpu_count: nat,
        demo: bool,
    },
    SelectGpu(Option<GpuView>),
    StartTest(PlanView),
    StopTest,
    Submit(PayloadView),
    Compare(RequestView),
    OpenUrl(Seq<char>),
    OpenResult(Seq<char>),
    OpenQuietly(Seq<char>),
    Copy(Seq<char>),
    SendFeedback { payload: FbPayloadView, include_info: bool },
    CollectDiagnostics,
    UploadLog(LogView),
    RemoveDriver,
}

impl View for Effect {
    type V = EffectView;

    open spec fn view(&self) -> EffectView {
        match *self {
            Effect::SaveSettings => EffectView::SaveSettings,
            Effect::StartSensors { lhm_dir, gpu, gpu_count, demo } => EffectView::StartSensors {
                lhm_dir: text_of(lhm_dir),
                gpu: gpu_of(gpu),
                gpu_count: gpu_count as nat,
                demo,
            },
            Effect::SelectGpu(g) => EffectView::SelectGpu(gpu_of(g)),
            Effect::StartTest(p) => EffectView::StartTest(p@),
            Effect::StopTest => EffectView::StopTest,
            Effect::Submit(p) => EffectView::Submit(p@),
            Effect::Compare(r) => EffectView::Compare(r@),
            Effect::OpenUrl(s) => EffectView::OpenUrl(s@),
            Effect::OpenResult(s) => EffectView::OpenResult(s@),
            Effect::OpenQuietly(s) => EffectView::OpenQuietly(s@),
            Effect::Copy(s) => EffectView::Copy(s@),
            Effect::SendFeedback { payload, include_info } => EffectView::SendFeedback {
                payload: payload@,
                include_info,
            },
            Effect::CollectDiagnostics => EffectView::CollectDiagnostics,
            Effect::UploadLog(p) => EffectView::UploadLog(p@),
            Effect::RemoveDriver => EffectView::RemoveDriver,
        }
    }
}

/// The contents of a list of effects.
pub open spec fn effect_views(v: Seq<Effect>) -> Seq<EffectView> {
    v.map_values(|e: Effect| e@)
}

fn nothing() -> (r: Vec<Effect>)
    ensures
        effect_views(r@) == Seq::<EffectView>::empty(),
{
    let r: Vec<Effect> = Vec::new();
    assert(effect_views(r@) =~= Seq::<EffectView>::empty());
    r
}

fn just(e: Effect) -> (r: Vec<Effect>)
    ensures
        effect_views(r@) == seq![e@],
{
    let mut r: Vec<Effect> = Vec::new();
    let ghost ev = e@;
    r.push(e);
    assert(effect_views(r@) =~= seq![ev]);
    r
}

impl FeedbackView {
    /// The form after an action on it.
    pub open spec fn acted(self, action: Action) -> FeedbackView {
        match action {
            Action::FbFocus(field) => FeedbackView { focus: field, ..self },
            Action::FbRating(r) => FeedbackView {
                rating: Some(r),
                focus: FbField::Rating,
                ..self
            },
            Action::FbCategory(c) => FeedbackView {
                category: c as int,
                focus: FbField::Category,
                ..self
            },
            Action::FbToggleInclude => FeedbackView {
                include_info: !self.include_info,
                focus: FbField::Include,
                ..self
            },
            _ => self,
        }
    }
}

impl FeedbackForm {
    fn act(&mut self, action: Action)
        requires
            old(self)@.wf(),
            action.wf(),
        ensures
            final(self)@ == old(self)@.acted(action),
            final(self)@.wf(),
    {
        match action {
            Action::FbFocus(field) => {
                self.focus = field;
            },
            Action::FbRating(rating) => {
                self.rating = Some(rating);
                self.focus = FbField::Rating;
            },
            Action::FbCategory(c) => {
                self.category = c;
                self.focus = FbField::Category;
            },
            Action::FbToggleInclude => {
                self.include_info = !self.include_info;
                self.focus = FbField::Include;
            },
            _ => {},
        }
    }
}

/// The interface's state.
#[derive(Debug, Clone)]
pub struct App {
    pub locale: String,
    pub opts: LaunchOptions,
    pub site: String,
    pub settings: Settings,
    pub version: String,
    /// The machine runs Windows.
    pub windows: bool,
    pub screen: Screen,
    pub hw: Option<HardwareInfo>,
    pub setup: Option<SensorSetup>,
    /// The sensors are being read.
    pub sensing: bool,
    pub gpu_index: usize,
    pub on_battery: Option<bool>,
    pub machine_id: String,
    pub form: Form,
    /// An earlier result that the next one is compared with, and what changed
    /// since, as the API names it.
    pub baseline: Option<String>,
    pub change: Option<String>,
    /// The test that runs.
    pub session: Option<TestPlan>,
    pub results: Option<ResultsState>,
    pub diag: Option<DiagState>,
    pub modal: Option<Modal>,
    /// A message, and when it appeared.
    pub toast: Option<(Toast, u64)>,
    pub quit: bool,
    /// Shown in the terminal after the interface closes.
    pub farewell_url: Option<String>,
    pub pawnio_decided: bool,
}

/// The state's contents.
pub ghost struct AppView {
    pub locale: Seq<char>,
    pub opts: LaunchOptions,
    pub site: Seq<char>,
    pub settings: SettingsView,
    pub version: Seq<char>,
    pub windows: bool,
    pub screen: Screen,
    pub hw: Option<HardwareInfo>,
    pub setup: Option<SensorSetup>,
    pub sensing: bool,
    pub gpu_index: int,
    pub on_battery: Option<bool>,
    pub machine_id: Seq<char>,
    pub form: FormView,
    pub baseline: Option<Seq<char>>,
    pub change: Option<Seq<char>>,
    pub session: Option<PlanView>,
    pub results: Option<ResultsView>,
    pub diag: Option<DiagView>,
    pub modal: Option<ModalView>,
    pub toast: Option<(ToastView, u64)>,
    pub quit: bool,
    pub farewell_url: Option<Seq<char>>,
    pub pawnio_decided: bool,
}

impl View for App {
    type V = AppView;

    open spec fn view(&self) -> AppView {
        AppView {
            locale: self.locale@,
            opts: self.opts,
            site: self.site@,
            settings: self.settings@,
            version: self.version@,
            windows: self.windows,
            screen: self.screen,
            hw: self.hw,
            setup: self.setup,
            sensing: self.sensing,
            gpu_index: self.gpu_index as int,
            on_battery: self.on_battery,
            machine_id: self.machine_id@,
            form: self.form@,
            baseline: text_of(self.baseline),
            change: text_of(self.change),
            session: match self.session {
                Some(p) => Some(p@),
                None => None,
            },
            results: match self.results {
                Some(r) => Some(r@),
                None => None,
            },
            diag: match self.diag {
                Some(d) => Some(d@),
                None => None,
            },
            modal: modal_of(self.modal),
            toast: match self.toast {
                Some((t, at)) => Some((t@, at)),
                None => None,
            },
            quit: self.quit,
            farewell_url: text_of(self.farewell_url),
            pawnio_decided: self.pawnio_decided,
        }
    }
}

impl AppView {
    /// The forms are sound, the chosen card exists where there are cards, and
    /// a finished run's figures are such as sensors report.
    pub open spec fn wf(self) -> bool {
        &&& self.form.wf()
        &&& self.modal is Some ==> self.modal->0.wf()
        &&& self.cards().len() > 0 ==> 0 <= self.gpu_index < self.cards().len()
        &&& self.cards().len() == 0 ==> self.gpu_index == 0
        &&& self.results is Some ==> self.results->0.progress@.wf()
    }

    /// The machine's cards.
    pub open spec fn cards(self) -> Seq<GpuDevice> {
        match self.hw {
            Some(h) => h.gpus@,
            None => Seq::empty(),
        }
    }

    /// The chosen card.
    pub open spec fn selected(self) -> Option<GpuView> {
        if 0 <= self.gpu_index < self.cards().len() {
            Some(self.cards()[self.gpu_index]@)
        } else {
            None
        }
    }

    /// The machine is a laptop.
    pub open spec fn laptop(self) -> bool {
        self.hw is Some && self.hw->0.is_laptop
    }

    /// A text is being typed.
    pub open spec fn typing(self) -> bool {
        match self.modal {
            Some(ModalView::Feedback(f)) => f.focus == FbField::Message || f.focus
                == FbField::Email,
            Some(ModalView::EditDetails(f)) => f.focus.text(),
            Some(_) => false,
            None => self.screen == Screen::Options && self.form.focus.text(),
        }
    }
}

impl App {
    /// The machine's cards.
    pub fn gpu_count(&self) -> (r: usize)
        ensures
            r == self@.cards().len(),
    {
        match &self.hw {
            Some(h) => h.gpus.len(),
            None => 0,
        }
    }

    /// The chosen card.
    pub fn selected_gpu(&self) -> (r: Option<&GpuDevice>)
        ensures
            (match r {
                Some(g) => Some(g@),
                None => None,
            }) == self@.selected(),
    {
        match &self.hw {
            Some(h) => if self.gpu_index < h.gpus.len() {
                Some(&h.gpus[self.gpu_index])
            } else {
                None
            },
            None => None,
        }
    }

    fn selected_copy(&self) -> (r: Option<GpuDevice>)
        ensures
            gpu_of(r) == self@.selected(),
    {
        match self.selected_gpu() {
            Some(g) => Some(g.duplicate()),
            None => None,
        }
    }

    /// Whether the machine is a laptop.
    pub fn is_laptop(&self) -> (r: bool)
        ensures
            r == self@.laptop(),
    {
        match &self.hw {
            Some(h) => h.is_laptop,
            None => false,
        }
    }

    /// Whether a text is being typed.
    pub fn is_typing(&self) -> (r: bool)
        ensures
            r == self@.typing(),
    {
        match &self.modal {
            Some(Modal::Feedback(f)) => f.focus == FbField::Message || f.focus == FbField::Email,
            Some(Modal::EditDetails(f)) => f.focus.is_text(),
            Some(_) => false,
            None => self.screen == Screen::Options && self.form.focus.is_text(),
        }
    }

    /// A quick test: too short to be submitted.
    pub fn is_quick(secs: u64) -> (r: bool)
        ensures
            r == (secs < MIN_SUBMIT_SECS),
    {
        secs < MIN_SUBMIT_SECS
    }

    /// Whether a completed test will be submitted. Demo results are
    /// simulated, so they may only go to a local development server.
    pub fn submits(&self) -> (r: bool)
        ensures
            r == (!self.opts.no_submit && (!self.opts.demo || local_site(self.site@))),
    {
        !self.opts.no_submit && (!self.opts.demo || is_local(self.site.as_str()))
    }
}

// ---------------------------------------------------------------------------
// What an action does

impl AppView {
    /// Chooses a card: its sensors are read from here on.
    pub open spec fn gpu_selected(self, index: int) -> (AppView, Seq<EffectView>) {
        if index < 0 || index >= self.cards().len() || index == self.gpu_index {
            (self, Seq::empty())
        } else {
            let a = AppView { gpu_index: index, ..self };
            (
                a,
                if self.sensing {
                    seq![EffectView::SelectGpu(a.selected())]
                } else {
                    Seq::empty()
                },
            )
        }
    }

    /// Chooses the card before or after the chosen one.
    pub open spec fn gpu_turned(self, left: bool) -> (AppView, Seq<EffectView>) {
        if self.cards().len() > 1 {
            self.gpu_selected(turned(self.gpu_index, self.cards().len() as int, left))
        } else {
            (self, Seq::empty())
        }
    }

    /// Quits, unless a test runs or the driver's fate is open: then asks.
    pub open spec fn quit_requested(self) -> AppView {
        let installed = self.setup is Some && self.setup->0.driver@ is InstalledNow;
        if self.session is Some {
            AppView { modal: Some(ModalView::StopTest), ..self }
        } else if installed && !self.pawnio_decided && self.windows {
            AppView {
                modal: Some(ModalView::Pawnio { removing: false, error: None }),
                ..self
            }
        } else {
            AppView { quit: true, ..self }
        }
    }

    /// Remembers the form's answers.
    pub open spec fn remembered(self) -> AppView {
        let f = self.form;
        let s = SettingsView {
            test_type: Some(f.chosen().code()),
            duration_secs: match f.secs() {
                Some(n) => Some(n as u64),
                None => None,
            },
            gpu_name: match self.selected() {
                Some(g) => Some(g.name),
                None => None,
            },
            ambient_temp: match crate::form::celsius_or_none(f.room()) {
                Some(c) => Some(c as i64),
                None => None,
            },
            ..self.settings
        };
        AppView {
            settings: if self.laptop() {
                SettingsView { laptop_model: f.laptop_model.entry(), ..s }
            } else {
                SettingsView {
                    cooling_type: f.cooling_for(false, None),
                    cooling_model: f.cooler_model.entry(),
                    ..s
                }
            },
            ..self
        }
    }

    /// Goes on from the options, if they can be used.
    pub open spec fn options_confirmed(self) -> (AppView, Seq<EffectView>) {
        let f = self.form;
        if f.secs() is None {
            (
                AppView {
                    form: FormView {
                        error: Some(FormError::Duration),
                        focus: Field::CustomSecs,
                        ..f
                    },
                    ..self
                },
                Seq::empty(),
            )
        } else if f.room() is Unusable {
            (
                AppView {
                    form: FormView {
                        error: Some(FormError::Ambient),
                        focus: Field::Ambient,
                        ..f
                    },
                    ..self
                },
                Seq::empty(),
            )
        } else {
            let test = if f.chosen().has_gpu() && self.cards().len() == 0 {
                1
            } else {
                f.test
            };
            let a = AppView { form: FormView { error: None, test, ..f }, ..self };
            (
                AppView { screen: Screen::Confirm, ..a.remembered() },
                seq![EffectView::SaveSettings],
            )
        }
    }

    /// The test that the form describes.
    pub open spec fn planned(self) -> PlanView {
        let kind = self.form.chosen();
        PlanView {
            kind,
            duration: (match self.form.secs() {
                Some(n) => n,
                None => 120,
            } * SECOND) as u64,
            gpu: if kind.has_gpu() {
                self.selected()
            } else {
                None
            },
        }
    }

    /// Starts the test.
    pub open spec fn test_started(self) -> (AppView, Seq<EffectView>) {
        if !self.sensing {
            (self, Seq::empty())
        } else {
            (
                AppView {
                    results: None,
                    session: Some(self.planned()),
                    screen: Screen::Running,
                    ..self
                },
                seq![EffectView::StartTest(self.planned())],
            )
        }
    }

    /// The details of the machine and of the re-test.
    pub open spec fn details(self) -> DetailsView {
        let f = self.form;
        DetailsView {
            laptop_model: if self.laptop() {
                f.laptop_model.entry()
            } else {
                None
            },
            cooling_type: f.cooling_for(self.laptop(), text_of(self.opts.cooling_type)),
            cooling_model: if self.laptop() {
                text_of(self.opts.cooling_model)
            } else {
                f.cooler_model.entry()
            },
            ambient_temp: match crate::form::celsius_or_none(f.room()) {
                Some(c) => Some(c as i64),
                None => None,
            },
            baseline_id: self.baseline,
            change_type: self.change,
        }
    }

    /// What is submitted of a finished run.  Of a test of the CPU alone, the
    /// chosen card is named too.
    pub open spec fn payload(self, r: ResultsView, kind: TestKind) -> PayloadView {
        payload_of(
            kind,
            match self.hw {
                Some(h) => Some(&h),
                None => None,
            },
            if r.plan.gpu is Some {
                r.plan.gpu
            } else {
                self.selected()
            },
            self.laptop(),
            self.details(),
            r.progress.cpu,
            r.progress.gpu,
            r.progress@.series,
            (r.plan.duration / SECOND) as int,
            self.version,
            self.machine_id,
            true,
        )
    }

    /// Submits the finished run, if it may be and is not under way.
    pub open spec fn submitted(self) -> (AppView, Seq<EffectView>) {
        match self.results {
            Some(r) => if (r.submit is Ready || (r.submit is Failed && r.submit->retry))
                && r.verdict.kind is Some {
                (
                    AppView {
                        results: Some(ResultsView { submit: SubmitView::Sending, ..r }),
                        ..self
                    },
                    seq![EffectView::Submit(self.payload(r, r.verdict.kind->0))],
                )
            } else {
                (self, Seq::empty())
            },
            None => (self, Seq::empty()),
        }
    }

    /// The page of the result or of the log that is shown.
    pub open spec fn current_url(self) -> Option<Seq<char>> {
        if self.screen == Screen::Diagnostics && self.diag is Some && self.diag->0.stage is Done {
            Some(self.diag->0.stage->Done_url)
        } else {
            match self.results {
                Some(r) => match r.submit {
                    SubmitView::Done { url } => Some(url),
                    _ => None,
                },
                None => None,
            }
        }
    }

    /// Opens the diagnostics, anew unless they are under way.
    pub open spec fn diagnostics_opened(self) -> AppView {
        let busy = self.diag is Some && (self.diag->0.stage is Collecting
            || self.diag->0.stage is Stress || self.diag->0.stage is Uploading);
        AppView {
            diag: if busy {
                self.diag
            } else {
                Some(
                    DiagView {
                        lines: Seq::empty(),
                        stage: StageView::Intro,
                        scroll: 0,
                        saved: None,
                    },
                )
            },
            screen: Screen::Diagnostics,
            ..self
        }
    }

    /// Begins to collect the diagnostics.
    pub open spec fn diagnostics_started(self) -> (AppView, Seq<EffectView>) {
        if self.hw is Some && self.setup is Some && self.diag is Some {
            (
                AppView {
                    diag: Some(DiagView { stage: StageView::Collecting, ..self.diag->0 }),
                    ..self
                },
                seq![EffectView::CollectDiagnostics],
            )
        } else {
            (self, Seq::empty())
        }
    }

    /// The feedback to send.
    pub open spec fn feedback_payload(self, f: FeedbackView) -> FbPayloadView {
        FbPayloadView {
            rating: f.rating,
            category: FB_CATEGORIES@[f.category]@,
            message: f.message.entry()->0,
            email: f.email.entry(),
            cli_version: self.version,
            os: match self.hw {
                Some(h) => text_of(h.os),
                None => None,
            },
            cpu_model: match self.hw {
                Some(h) => text_of(h.cpu_model),
                None => None,
            },
            gpu_model: match self.selected() {
                Some(g) => Some(g.name),
                None => None,
            },
            locale: self.locale,
            context: f.context.code(),
            diagnostics: None,
            session_id: if self.machine_id.len() > 0 {
                Some(self.machine_id)
            } else {
                None
            },
        }
    }

    /// Sends the feedback, if there is a message.
    pub open spec fn feedback_sent(self) -> (AppView, Seq<EffectView>) {
        match self.modal {
            Some(ModalView::Feedback(f)) => if f.closed() {
                (self, Seq::empty())
            } else if f.message.entry() is None {
                (
                    AppView {
                        modal: Some(
                            ModalView::Feedback(
                                FeedbackView { error: true, focus: FbField::Message, ..f },
                            ),
                        ),
                        ..self
                    },
                    Seq::empty(),
                )
            } else {
                (
                    AppView {
                        modal: Some(
                            ModalView::Feedback(
                                FeedbackView { error: false, state: FbStateView::Sending, ..f },
                            ),
                        ),
                        ..self
                    },
                    seq![
                        EffectView::SendFeedback {
                            payload: self.feedback_payload(f),
                            include_info: f.include_info,
                        },
                    ],
                )
            },
            _ => (self, Seq::empty()),
        }
    }

    /// The screen that feedback is sent from.
    pub open spec fn context(self) -> FbContext {
        match self.screen {
            Screen::Boot | Screen::Home => FbContext::Home,
            Screen::Options | Screen::Confirm => FbContext::Options,
            Screen::Running => FbContext::Running,
            Screen::Results => FbContext::Results,
            Screen::Diagnostics => FbContext::Diagnostics,
        }
    }

    /// The place of the language, the first where it is none of those offered.
    pub open spec fn language_place(self, i: int) -> int
        decreases 9 - i,
    {
        if i < 0 || i >= 9 {
            0
        } else if LANGUAGES@[i]@ == self.locale {
            i
        } else {
            self.language_place(i + 1)
        }
    }

    /// Saves the details of the dialog, if they can be used.
    pub open spec fn details_saved(self) -> (AppView, Seq<EffectView>) {
        match self.modal {
            Some(ModalView::EditDetails(f)) => if f.room() is Unusable {
                (
                    AppView {
                        modal: Some(
                            ModalView::EditDetails(
                                FormView { error: Some(FormError::Ambient), ..f },
                            ),
                        ),
                        ..self
                    },
                    Seq::empty(),
                )
            } else {
                (
                    AppView { form: f, modal: None, ..self }.remembered(),
                    seq![EffectView::SaveSettings],
                )
            },
            _ => (self, Seq::empty()),
        }
    }

    /// Puts the focus on a row.
    pub open spec fn focused(self, field: Field) -> AppView {
        match self.modal {
            Some(ModalView::EditDetails(f)) => AppView {
                modal: Some(ModalView::EditDetails(FormView { focus: field, ..f })),
                ..self
            },
            _ => AppView { form: FormView { focus: field, ..self.form }, ..self },
        }
    }

    /// The form with a choice made in a row.
    pub open spec fn choice(f: FormView, field: Field, value: int) -> FormView {
        let g = FormView { focus: field, ..f };
        match field {
            Field::Test => FormView { test: value, ..g },
            Field::Duration => FormView { duration: value, ..g },
            Field::Cooling => FormView { cooling: value, ..g },
            _ => g,
        }
    }

    /// Makes a choice in a row.
    pub open spec fn chosen(self, field: Field, value: int) -> (AppView, Seq<EffectView>) {
        let a = match self.modal {
            Some(ModalView::EditDetails(f)) => AppView {
                modal: Some(ModalView::EditDetails(AppView::choice(f, field, value))),
                ..self
            },
            _ => AppView { form: AppView::choice(self.form, field, value), ..self },
        };
        if field == Field::Gpu {
            a.gpu_selected(value)
        } else {
            (a, Seq::empty())
        }
    }

    /// Changes the feedback form, if it is open.
    pub open spec fn feedback_acted(self, action: Action) -> AppView {
        match self.modal {
            Some(ModalView::Feedback(f)) => AppView {
                modal: Some(ModalView::Feedback(f.acted(action))),
                ..self
            },
            _ => self,
        }
    }

    /// Opens the dialog with the details.
    pub open spec fn details_opened(self) -> AppView {
        let rows = self.form.rows(self.laptop(), 0, true);
        AppView {
            modal: Some(
                ModalView::EditDetails(FormView { focus: rows[0], error: None, ..self.form }),
            ),
            ..self
        }
    }

    /// What an action does, and what is to be done outside.
    pub open spec fn acted(self, action: Action) -> (AppView, Seq<EffectView>) {
        let none = Seq::<EffectView>::empty();
        match action {
            Action::Continue => match self.screen {
                Screen::Home => (
                    AppView {
                        form: FormView { focus: Field::Test, error: None, ..self.form },
                        screen: Screen::Options,
                        ..self
                    },
                    none,
                ),
                Screen::Options => self.options_confirmed(),
                _ => (self, none),
            },
            Action::Back => (
                AppView {
                    screen: match self.screen {
                        Screen::Options | Screen::Diagnostics => Screen::Home,
                        Screen::Confirm => Screen::Options,
                        other => other,
                    },
                    ..self
                },
                none,
            ),
            Action::StartTest => self.test_started(),
            Action::StopTest => (
                if self.session is Some {
                    AppView { modal: Some(ModalView::StopTest), ..self }
                } else {
                    self
                },
                none,
            ),
            Action::KeepRunning => (AppView { modal: None, ..self }, none),
            Action::ConfirmStop => (
                AppView { modal: None, ..self },
                if self.session is Some {
                    seq![EffectView::StopTest]
                } else {
                    none
                },
            ),
            Action::Submit => self.submitted(),
            Action::EditDetails => (self.details_opened(), none),
            Action::SaveDetails => self.details_saved(),
            Action::OpenResults => (
                self,
                match self.current_url() {
                    Some(url) => seq![EffectView::OpenUrl(url)],
                    None => none,
                },
            ),
            Action::CopyLink => (
                self,
                match self.current_url() {
                    Some(url) => seq![EffectView::Copy(url)],
                    None => none,
                },
            ),
            Action::RunAgain => (
                AppView { results: None, screen: Screen::Options, ..self },
                none,
            ),
            Action::Feedback => (
                AppView {
                    modal: Some(ModalView::Feedback(FeedbackView::blank(self.context()))),
                    ..self
                },
                none,
            ),
            Action::Support => (
                self,
                seq![EffectView::OpenUrl(page(self.site, self.locale, "/support"@))],
            ),
            Action::Help => (AppView { modal: Some(ModalView::Help), ..self }, none),
            Action::Language => (
                AppView {
                    modal: Some(ModalView::Language { cursor: self.language_place(0) }),
                    ..self
                },
                none,
            ),
            Action::SetLanguage(i) => if i < 9 {
                (
                    AppView {
                        locale: LANGUAGES@[i as int]@,
                        settings: SettingsView {
                            lang: Some(LANGUAGES@[i as int]@),
                            ..self.settings
                        },
                        modal: None,
                        ..self
                    },
                    seq![EffectView::SaveSettings],
                )
            } else {
                (AppView { modal: None, ..self }, none)
            },
            Action::CloseModal => match self.modal {
                Some(ModalView::Feedback(f)) if f.state is Sending => (self, none),
                _ => (AppView { modal: None, ..self }, none),
            },
            Action::Quit => (self.quit_requested(), none),
            Action::Diagnostics => (self.diagnostics_opened(), none),
            Action::StartDiagnostics => self.diagnostics_started(),
            Action::PrevGpu => self.gpu_turned(true),
            Action::NextGpu => self.gpu_turned(false),
            Action::Focus(field) => (self.focused(field), none),
            Action::Choose(field, value) => self.chosen(field, value as int),
            Action::FbFocus(_)
            | Action::FbRating(_)
            | Action::FbCategory(_)
            | Action::FbToggleInclude => (self.feedback_acted(action), none),
            Action::FbSend => self.feedback_sent(),
            Action::KeepPawnio => (
                AppView { pawnio_decided: true, modal: None, quit: true, ..self },
                none,
            ),
            Action::UninstallPawnio => (
                AppView {
                    pawnio_decided: true,
                    modal: Some(ModalView::Pawnio { removing: true, error: None }),
                    ..self
                },
                seq![EffectView::RemoveDriver],
            ),
        }
    }
}

impl App {
    fn select_gpu(&mut self, index: usize) -> (r: Vec<Effect>)
        requires
            old(self)@.wf(),
        ensures
            (final(self)@, effect_views(r@)) == old(self)@.gpu_selected(index as int),
            final(self)@.wf(),
    {
        if index >= self.gpu_count() || index == self.gpu_index {
            return nothing();
        }
        self.gpu_index = index;
        if self.sensing {
            just(Effect::SelectGpu(self.selected_copy()))
        } else {
            nothing()
        }
    }

    fn turn_gpu(&mut self, left: bool) -> (r: Vec<Effect>)
        requires
            old(self)@.wf(),
        ensures
            (final(self)@, effect_views(r@)) == old(self)@.gpu_turned(left),
            final(self)@.wf(),
    {
        let n: usize = self.gpu_count();
        if n > 1 {
            let next: usize = turn(self.gpu_index, n, left);
            self.select_gpu(next)
        } else {
            nothing()
        }
    }

    fn request_quit(&mut self)
        requires
            old(self)@.wf(),
        ensures
            final(self)@ == old(self)@.quit_requested(),
            final(self)@.wf(),
    {
        if self.session.is_some() {
            self.modal = Some(Modal::StopTest);
            return ;
        }
        let installed = match &self.setup {
            Some(s) => matches!(s.driver, DriverState::InstalledNow),
            None => false,
        };
        if installed && !self.pawnio_decided && self.windows {
            self.modal = Some(Modal::Pawnio { removing: false, error: None });
            return ;
        }
        self.quit = true;
    }

    fn save_settings(&mut self)
        requires
            old(self)@.wf(),
        ensures
            final(self)@ == old(self)@.remembered(),
            final(self)@.wf(),
    {
        let laptop = self.is_laptop();
        self.settings.test_type = Some(owned(self.form.kind().as_str()));
        self.settings.duration_secs = self.form.duration_secs();
        self.settings.gpu_name = match self.selected_gpu() {
            Some(g) => Some(g.name.clone()),
            None => None,
        };
        if laptop {
            self.settings.laptop_model = self.form.laptop_model.trimmed();
        } else {
            self.settings.cooling_type = if self.form.cooling < 6 {
                Some(owned(COOLING[self.form.cooling]))
            } else {
                None
            };
            self.settings.cooling_model = self.form.cooler_model.trimmed();
        }
        self.settings.ambient_temp = self.form.ambient_or_none();
    }

    fn confirm_options(&mut self) -> (r: Vec<Effect>)
        requires
            old(self)@.wf(),
        ensures
            (final(self)@, effect_views(r@)) == old(self)@.options_confirmed(),
            final(self)@.wf(),
    {
        if self.form.duration_secs().is_none() {
            self.form.error = Some(FormError::Duration);
            self.form.focus = Field::CustomSecs;
            return nothing();
        }
        if self.form.ambient_celsius().is_err() {
            self.form.error = Some(FormError::Ambient);
            self.form.focus = Field::Ambient;
            return nothing();
        }
        if self.form.kind().gpu() && self.gpu_count() == 0 {
            self.form.test = 1;
        }
        self.form.error = None;
        self.save_settings();
        self.screen = Screen::Confirm;
        just(Effect::SaveSettings)
    }

    fn plan(&self) -> (r: TestPlan)
        requires
            self@.wf(),
        ensures
            r@ == self@.planned(),
    {
        let kind = self.form.kind();
        let secs: u64 = match self.form.duration_secs() {
            Some(n) => n,
            None => 120,
        };
        TestPlan {
            kind,
            duration: secs * SECOND,
            gpu: if kind.gpu() {
                self.selected_copy()
            } else {
                None
            },
        }
    }

    fn start_test(&mut self) -> (r: Vec<Effect>)
        requires
            old(self)@.wf(),
        ensures
            (final(self)@, effect_views(r@)) == old(self)@.test_started(),
            final(self)@.wf(),
    {
        if !self.sensing {
            return nothing();
        }
        let plan = self.plan();
        let same_plan = self.plan();
        self.results = None;
        self.session = Some(plan);
        self.screen = Screen::Running;
        just(Effect::StartTest(same_plan))
    }

    fn test_details(&self) -> (r: Details)
        requires
            self@.wf(),
        ensures
            r@ == self@.details(),
    {
        let laptop = self.is_laptop();
        Details {
            laptop_model: if laptop {
                self.form.laptop_model.trimmed()
            } else {
                None
            },
            cooling_type: self.form.cooling_type(laptop, &self.opts),
            cooling_model: if laptop {
                copy_text(&self.opts.cooling_model)
            } else {
                self.form.cooler_model.trimmed()
            },
            ambient_temp: self.form.ambient_or_none(),
            baseline_id: copy_text(&self.baseline),
            change_type: copy_text(&self.change),
        }
    }

    /// What is submitted of a finished run.
    pub fn payload(&self, r: &ResultsState, kind: TestKind) -> (p: SubmissionPayload)
        requires
            self@.wf(),
            r.progress@.wf(),
        ensures
            p@ == self@.payload(r@, kind),
    {
        let gpu = match &r.plan.gpu {
            Some(g) => Some(g),
            None => self.selected_gpu(),
        };
        let hw = match &self.hw {
            Some(h) => Some(h),
            None => None,
        };
        submission(
            kind,
            hw,
            gpu,
            self.is_laptop(),
            self.test_details(),
            &r.progress,
            r.plan.duration / SECOND,
            self.version.as_str(),
            self.machine_id.as_str(),
            true,
        )
    }

    fn submit(&mut self) -> (r: Vec<Effect>)
        requires
            old(self)@.wf(),
        ensures
            (final(self)@, effect_views(r@)) == old(self)@.submitted(),
            final(self)@.wf(),
    {
        let payload = match &self.results {
            Some(r) => {
                let may = match &r.submit {
                    SubmitState::Ready => true,
                    SubmitState::Failed { retry, .. } => *retry,
                    _ => false,
                };
                match r.verdict.kind {
                    Some(kind) => if may {
                        self.payload(r, kind)
                    } else {
                        return nothing();
                    },
                    None => {
                        return nothing();
                    },
                }
            },
            None => {
                return nothing();
            },
        };
        match &mut self.results {
            Some(r) => {
                r.submit = SubmitState::Sending;
            },
            None => {},
        }
        just(Effect::Submit(payload))
    }

    fn shown_url(&self) -> (r: Option<String>)
        ensures
            text_of(r) == self@.current_url(),
    {
        if self.screen == Screen::Diagnostics {
            match &self.diag {
                Some(d) => match &d.stage {
                    DiagStage::Done { url } => {
                        return Some(url.clone());
                    },
                    _ => {},
                },
                None => {},
            }
        }
        match &self.results {
            Some(r) => match &r.submit {
                SubmitState::Done { url } => Some(url.clone()),
                _ => None,
            },
            None => None,
        }
    }

    fn open_diagnostics(&mut self)
        requires
            old(self)@.wf(),
        ensures
            final(self)@ == old(self)@.diagnostics_opened(),
            final(self)@.wf(),
    {
        let busy = match &self.diag {
            Some(d) => matches!(
                d.stage,
                DiagStage::Collecting | DiagStage::Stress | DiagStage::Uploading
            ),
            None => false,
        };
        if !busy {
            let lines: Vec<String> = Vec::new();
            assert(line_views(lines@) =~= Seq::empty());
            self.diag = Some(DiagState { lines, stage: DiagStage::Intro, scroll: 0, saved: None });
        }
        self.screen = Screen::Diagnostics;
    }

    fn start_diagnostics(&mut self) -> (r: Vec<Effect>)
        requires
            old(self)@.wf(),
        ensures
            (final(self)@, effect_views(r@)) == old(self)@.diagnostics_started(),
            final(self)@.wf(),
    {
        if self.hw.is_none() || self.setup.is_none() {
            return nothing();
        }
        match &mut self.diag {
            Some(d) => {
                d.stage = DiagStage::Collecting;
            },
            None => {
                return nothing();
            },
        }
        just(Effect::CollectDiagnostics)
    }

    fn make_feedback(&self, f: &FeedbackForm, message: String) -> (r: FeedbackPayload)
        requires
            f@.wf(),
            f@.message.entry() == Some(message@),
        ensures
            r@ == self@.feedback_payload(f@),
    {
        let (os, cpu_model) = match &self.hw {
            Some(h) => (copy_text(&h.os), copy_text(&h.cpu_model)),
            None => (None, None),
        };
        let gpu_model = match self.selected_gpu() {
            Some(g) => Some(g.name.clone()),
            None => None,
        };
        FeedbackPayload {
            rating: f.rating,
            category: owned(FB_CATEGORIES[f.category]),
            message,
            email: f.email.trimmed(),
            cli_version: self.version.clone(),
            os,
            cpu_model,
            gpu_model,
            locale: self.locale.clone(),
            context: owned(f.context.name()),
            diagnostics: None,
            session_id: if self.machine_id.as_str().is_empty() {
                None
            } else {
                Some(self.machine_id.clone())
            },
        }
    }

    fn send_feedback(&mut self) -> (r: Vec<Effect>)
        requires
            old(self)@.wf(),
        ensures
            (final(self)@, effect_views(r@)) == old(self)@.feedback_sent(),
            final(self)@.wf(),
    {
        let mut made: Option<(FeedbackPayload, bool)> = None;
        match &self.modal {
            Some(Modal::Feedback(f)) => {
                if f.is_closed() {
                    return nothing();
                }
                match f.message.trimmed() {
                    Some(m) => {
                        made = Some((self.make_feedback(f, m), f.include_info));
                    },
                    None => {},
                }
            },
            _ => {
                return nothing();
            },
        }
        match &mut self.modal {
            Some(Modal::Feedback(f)) => {
                if made.is_some() {
                    f.error = false;
                    f.state = FbState::Sending;
                } else {
                    f.error = true;
                    f.focus = FbField::Message;
                }
            },
            _ => {},
        }
        match made {
            Some((payload, include_info)) => just(Effect::SendFeedback { payload, include_info }),
            None => nothing(),
        }
    }

    fn feedback_context(&self) -> (r: FbContext)
        ensures
            r == self@.context(),
    {
        match self.screen {
            Screen::Boot | Screen::Home => FbContext::Home,
            Screen::Options | Screen::Confirm => FbContext::Options,
            Screen::Running => FbContext::Running,
            Screen::Results => FbContext::Results,
            Screen::Diagnostics => FbContext::Diagnostics,
        }
    }

    fn find_language(&self) -> (r: usize)
        ensures
            r == self@.language_place(0),
            r < 9,
    {
        let mut i: usize = 0;
        while i < 9
            invariant
                i <= 9,
                self@.language_place(0) == self@.language_place(i as int),
            decreases 9 - i,
        {
            if same(LANGUAGES[i], self.locale.as_str()) {
                return i;
            }
            i = i + 1;
        }
        0
    }

    fn save_details(&mut self) -> (r: Vec<Effect>)
        requires
            old(self)@.wf(),
        ensures
            (final(self)@, effect_views(r@)) == old(self)@.details_saved(),
            final(self)@.wf(),
    {
        let mut copy: Option<Form> = None;
        match &mut self.modal {
            Some(Modal::EditDetails(f)) => {
                if f.ambient_celsius().is_err() {
                    f.error = Some(FormError::Ambient);
                    return nothing();
                }
                copy = Some(f.duplicate());
            },
            _ => {},
        }
        match copy {
            Some(f) => {
                self.form = f;
                self.modal = None;
                self.save_settings();
                just(Effect::SaveSettings)
            },
            None => nothing(),
        }
    }

    fn focus_on(&mut self, field: Field)
        requires
            old(self)@.wf(),
        ensures
            final(self)@ == old(self)@.focused(field),
            final(self)@.wf(),
    {
        match &mut self.modal {
            Some(Modal::EditDetails(f)) => {
                f.focus = field;
            },
            _ => {
                self.form.focus = field;
            },
        }
    }

    fn choose_in(&mut self, field: Field, value: usize) -> (r: Vec<Effect>)
        requires
            old(self)@.wf(),
            Action::Choose(field, value).wf(),
        ensures
            (final(self)@, effect_views(r@)) == old(self)@.chosen(field, value as int),
            final(self)@.wf(),
    {
        match &mut self.modal {
            Some(Modal::EditDetails(f)) => {
                make_choice(f, field, value);
            },
            _ => {
                make_choice(&mut self.form, field, value);
            },
        }
        if field == Field::Gpu {
            self.select_gpu(value)
        } else {
            nothing()
        }
    }

    fn open_details(&mut self)
        requires
            old(self)@.wf(),
        ensures
            final(self)@ == old(self)@.details_opened(),
            final(self)@.wf(),
    {
        let mut form = self.form.duplicate();
        let rows: Vec<Field> = form.fields(self.is_laptop(), 0, true);
        form.focus = rows[0];
        form.error = None;
        self.modal = Some(Modal::EditDetails(form));
    }

    fn go_on(&mut self) -> (r: Vec<Effect>)
        requires
            old(self)@.wf(),
        ensures
            (final(self)@, effect_views(r@)) == old(self)@.acted(Action::Continue),
            final(self)@.wf(),
    {
        match self.screen {
            Screen::Home => {
                self.form.focus = Field::Test;
                self.form.error = None;
                self.screen = Screen::Options;
                nothing()
            },
            Screen::Options => self.confirm_options(),
            _ => nothing(),
        }
    }

    fn go_back(&mut self) -> (r: Vec<Effect>)
        requires
            old(self)@.wf(),
        ensures
            (final(self)@, effect_views(r@)) == old(self)@.acted(Action::Back),
            final(self)@.wf(),
    {
        self.screen = match self.screen {
            Screen::Options | Screen::Diagnostics => Screen::Home,
            Screen::Confirm => Screen::Options,
            other => other,
        };
        nothing()
    }

    fn ask_to_stop(&mut self) -> (r: Vec<Effect>)
        requires
            old(self)@.wf(),
        ensures
            (final(self)@, effect_views(r@)) == old(self)@.acted(Action::StopTest),
            final(self)@.wf(),
    {
        if self.session.is_some() {
            self.modal = Some(Modal::StopTest);
        }
        nothing()
    }

    fn stop_test(&mut self) -> (r: Vec<Effect>)
        requires
            old(self)@.wf(),
        ensures
            (final(self)@, effect_views(r@)) == old(self)@.acted(Action::ConfirmStop),
            final(self)@.wf(),
    {
        self.modal = None;
        if self.session.is_some() {
            just(Effect::StopTest)
        } else {
            nothing()
        }
    }

    fn open_page(&mut self) -> (r: Vec<Effect>)
        requires
            old(self)@.wf(),
        ensures
            (final(self)@, effect_views(r@)) == old(self)@.acted(Action::OpenResults),
            final(self)@.wf(),
    {
        match self.shown_url() {
            Some(url) => just(Effect::OpenUrl(url)),
            None => nothing(),
        }
    }

    fn copy_link(&mut self) -> (r: Vec<Effect>)
        requires
            old(self)@.wf(),
        ensures
            (final(self)@, effect_views(r@)) == old(self)@.acted(Action::CopyLink),
            final(self)@.wf(),
    {
        match self.shown_url() {
            Some(url) => just(Effect::Copy(url)),
            None => nothing(),
        }
    }

    fn set_language(&mut self, i: usize) -> (r: Vec<Effect>)
        requires
            old(self)@.wf(),
        ensures
            (final(self)@, effect_views(r@)) == old(self)@.acted(Action::SetLanguage(i)),
            final(self)@.wf(),
    {
        self.modal = None;
        if i < 9 {
            self.locale = owned(LANGUAGES[i]);
            self.settings.lang = Some(owned(LANGUAGES[i]));
            just(Effect::SaveSettings)
        } else {
            nothing()
        }
    }

    fn close_modal(&mut self) -> (r: Vec<Effect>)
        requires
            old(self)@.wf(),
        ensures
            (final(self)@, effect_views(r@)) == old(self)@.acted(Action::CloseModal),
            final(self)@.wf(),
    {
        let sending = match &self.modal {
            Some(Modal::Feedback(f)) => matches!(f.state, FbState::Sending),
            _ => false,
        };
        if !sending {
            self.modal = None;
        }
        nothing()
    }

    fn open_dialog(&mut self, action: Action) -> (r: Vec<Effect>)
        requires
            old(self)@.wf(),
            action == Action::Feedback || action == Action::Help || action == Action::Language
                || action == Action::EditDetails,
        ensures
            (final(self)@, effect_views(r@)) == old(self)@.acted(action),
            final(self)@.wf(),
    {
        match action {
            Action::Feedback => {
                self.modal = Some(Modal::Feedback(FeedbackForm::new(self.feedback_context())));
            },
            Action::Help => {
                self.modal = Some(Modal::Help);
            },
            Action::Language => {
                self.modal = Some(Modal::Language { cursor: self.find_language() });
            },
            _ => {
                self.open_details();
            },
        }
        nothing()
    }

    fn change_feedback(&mut self, action: Action) -> (r: Vec<Effect>)
        requires
            old(self)@.wf(),
            action.wf(),
            action is FbFocus || action is FbRating || action is FbCategory || action
                == Action::FbToggleInclude,
        ensures
            (final(self)@, effect_views(r@)) == old(self)@.acted(action),
            final(self)@.wf(),
    {
        match &mut self.modal {
            Some(Modal::Feedback(f)) => {
                f.act(action);
            },
            _ => {},
        }
        nothing()
    }

    fn decide_driver(&mut self, keep: bool) -> (r: Vec<Effect>)
        requires
            old(self)@.wf(),
        ensures
            (final(self)@, effect_views(r@)) == old(self)@.acted(
                if keep {
                    Action::KeepPawnio
                } else {
                    Action::UninstallPawnio
                },
            ),
            final(self)@.wf(),
    {
        self.pawnio_decided = true;
        if keep {
            self.modal = None;
            self.quit = true;
            nothing()
        } else {
            self.modal = Some(Modal::Pawnio { removing: true, error: None });
            just(Effect::RemoveDriver)
        }
    }

    /// Does what the user asked for.
    pub fn act(&mut self, action: Action) -> (r: Vec<Effect>)
        requires
            old(self)@.wf(),
            action.wf(),
        ensures
            (final(self)@, effect_views(r@)) == old(self)@.acted(action),
            final(self)@.wf(),
    {
        match action {
            Action::Continue => self.go_on(),
            Action::Back => self.go_back(),
            Action::StartTest => self.start_test(),
            Action::StopTest => self.ask_to_stop(),
            Action::KeepRunning => {
                self.modal = None;
                nothing()
            },
            Action::ConfirmStop => self.stop_test(),
            Action::Submit => self.submit(),
            Action::EditDetails => self.open_dialog(action),
            Action::SaveDetails => self.save_details(),
            Action::OpenResults => self.open_page(),
            Action::CopyLink => self.copy_link(),
            Action::RunAgain => {
                self.results = None;
                self.screen = Screen::Options;
                nothing()
            },
            Action::Feedback => self.open_dialog(action),
            Action::Support => just(
                Effect::OpenUrl(page_url(self.site.as_str(), self.locale.as_str(), "/support")),
            ),
            Action::Help => self.open_dialog(action),
            Action::Language => self.open_dialog(action),
            Action::SetLanguage(i) => self.set_language(i),
            Action::CloseModal => self.close_modal(),
            Action::Quit => {
                self.request_quit();
                nothing()
            },
            Action::Diagnostics => {
                self.open_diagnostics();
                nothing()
            },
            Action::StartDiagnostics => self.start_diagnostics(),
            Action::PrevGpu => self.turn_gpu(true),
            Action::NextGpu => self.turn_gpu(false),
            Action::Focus(field) => {
                self.focus_on(field);
                nothing()
            },
            Action::Choose(field, value) => self.choose_in(field, value),
            Action::FbFocus(_) => self.change_feedback(action),
            Action::FbRating(_) => self.change_feedback(action),
            Action::FbCategory(_) => self.change_feedback(action),
            Action::FbToggleInclude => self.change_feedback(action),
            Action::FbSend => self.send_feedback(),
            Action::KeepPawnio => self.decide_driver(true),
            Action::UninstallPawnio => self.decide_driver(false),
        }
    }
}

fn make_choice(form: &mut Form, field: Field, value: usize)
    requires
        old(form)@.wf(),
        Action::Choose(field, value).wf(),
    ensures
        final(form)@ == AppView::choice(old(form)@, field, value as int),
        final(form)@.wf(),
{
    form.focus = field;
    match field {
        Field::Test => {
            form.test = value;
        },
        Field::Duration => {
            form.duration = value;
        },
        Field::Cooling => {
            form.cooling = value;
        },
        _ => {},
    }
}

// ---------------------------------------------------------------------------
// Keys

/// What a key does in a dialog: whether it stays, what it asks for, and
/// whether it ends the program.
pub ghost struct DialogView {
    pub stays: Option<ModalView>,
    pub action: Option<Action>,
    pub quit: bool,
}

/// A dialog that stays or closes, with nothing asked for.
pub open spec fn only(stays: Option<ModalView>) -> DialogView {
    DialogView { stays, action: None, quit: false }
}

/// A dialog that stays or closes, with something asked for.
pub open spec fn asking(stays: Option<ModalView>, action: Action) -> DialogView {
    DialogView { stays, action: Some(action), quit: false }
}

/// What a key does in the help.
pub open spec fn help_keyed(code: KeyCode) -> DialogView {
    if code == KeyCode::Esc || code == KeyCode::Enter || letter(code, 'q', 'Q') || code
        == KeyCode::Char('?') || code == KeyCode::F(1u8) {
        only(None)
    } else {
        only(Some(ModalView::Help))
    }
}

/// What a key does in the list of languages.
pub open spec fn language_keyed(cursor: int, code: KeyCode) -> DialogView {
    match code {
        KeyCode::Esc => only(None),
        KeyCode::Up => only(
            Some(
                ModalView::Language {
                    cursor: if cursor > 0 {
                        cursor - 1
                    } else {
                        0
                    },
                },
            ),
        ),
        KeyCode::Down => only(
            Some(
                ModalView::Language {
                    cursor: if cursor + 1 < 9 {
                        cursor + 1
                    } else {
                        8
                    },
                },
            ),
        ),
        KeyCode::Enter => asking(None, Action::SetLanguage(cursor as usize)),
        _ => only(Some(ModalView::Language { cursor })),
    }
}

/// What a key does where the user is asked whether to stop.
pub open spec fn stop_keyed(code: KeyCode) -> DialogView {
    if letter(code, 's', 'S') {
        asking(None, Action::ConfirmStop)
    } else if code == KeyCode::Enter || code == KeyCode::Esc {
        only(None)
    } else {
        only(Some(ModalView::StopTest))
    }
}

/// What a key does in the dialog with the details.
pub open spec fn details_keyed(form: FormView, laptop: bool, key: Key) -> DialogView {
    match key.code {
        KeyCode::Esc => only(None),
        KeyCode::Enter => asking(Some(ModalView::EditDetails(form)), Action::SaveDetails),
        _ => only(
            Some(ModalView::EditDetails(edited(form, form.rows(laptop, 0, true), key, 0).0)),
        ),
    }
}

/// What a key does in the feedback form.  Escape closes it, and Enter once it
/// is sent or has failed, but not while it is on its way.
pub open spec fn feedback_keyed(fb: FeedbackView, key: Key) -> DialogView {
    let (f, send) = fb.keyed(key);
    let close = key.code == KeyCode::Esc || ((f.state is Sent || f.state is Failed) && key.code
        == KeyCode::Enter);
    if close && !(f.state is Sending) {
        only(None)
    } else if send {
        asking(Some(ModalView::Feedback(f)), Action::FbSend)
    } else {
        only(Some(ModalView::Feedback(f)))
    }
}

/// What a key does where the user is asked about the driver.  Once removing it
/// has failed, any key ends the program.
pub open spec fn pawnio_keyed(
    removing: bool,
    error: Option<Seq<char>>,
    code: KeyCode,
) -> DialogView {
    let same = ModalView::Pawnio { removing, error };
    if removing {
        only(Some(same))
    } else if error is Some {
        DialogView { stays: None, action: None, quit: true }
    } else if letter(code, 'u', 'U') {
        asking(Some(same), Action::UninstallPawnio)
    } else if letter(code, 'k', 'K') || code == KeyCode::Enter || letter(code, 'q', 'Q') {
        asking(Some(same), Action::KeepPawnio)
    } else if code == KeyCode::Esc {
        only(None)
    } else {
        only(Some(same))
    }
}

/// What a key does in a dialog.
pub open spec fn dialog_keyed(m: ModalView, laptop: bool, key: Key) -> DialogView {
    match m {
        ModalView::Help => help_keyed(key.code),
        ModalView::Language { cursor } => language_keyed(cursor, key.code),
        ModalView::StopTest => stop_keyed(key.code),
        ModalView::EditDetails(f) => details_keyed(f, laptop, key),
        ModalView::Feedback(f) => feedback_keyed(f, key),
        ModalView::Pawnio { removing, error } => pawnio_keyed(removing, error, key.code),
    }
}

/// What a key asks for on the results.
pub open spec fn results_keyed(submit: SubmitView, code: KeyCode) -> Option<Action> {
    let retry = submit is Failed && submit->retry;
    let busy = submit is Ready || submit is Sending;
    let done = submit is Done;
    if code == KeyCode::Enter {
        if submit is Ready || retry {
            Some(Action::Submit)
        } else if done {
            Some(Action::OpenResults)
        } else {
            Some(Action::RunAgain)
        }
    } else if letter(code, 'e', 'E') && submit is Failed {
        Some(Action::EditDetails)
    } else if letter(code, 'o', 'O') && done {
        Some(Action::OpenResults)
    } else if letter(code, 'c', 'C') && done {
        Some(Action::CopyLink)
    } else if letter(code, 'r', 'R') {
        if retry {
            Some(Action::Submit)
        } else if busy {
            None
        } else {
            Some(Action::RunAgain)
        }
    } else if code == KeyCode::Esc && !busy {
        Some(Action::RunAgain)
    } else {
        None
    }
}

/// How far a key scrolls the log up; down where it is below zero.
pub open spec fn scroll_by(code: KeyCode) -> int {
    match code {
        KeyCode::Up => 1,
        KeyCode::Down => -1,
        KeyCode::PageUp => 10,
        KeyCode::PageDown => -10,
        _ => 0,
    }
}

/// A position moved by some lines, between the bottom and the largest number.
pub open spec fn scrolled(at: int, by: int) -> int {
    if at + by < 0 {
        0
    } else if at + by > usize::MAX {
        usize::MAX as int
    } else {
        at + by
    }
}

/// What a key asks for on the diagnostics.
pub open spec fn diagnostics_keyed(stage: StageView, code: KeyCode) -> Option<Action> {
    match stage {
        StageView::Intro => if code == KeyCode::Enter {
            Some(Action::StartDiagnostics)
        } else if code == KeyCode::Esc {
            Some(Action::Back)
        } else {
            None
        },
        StageView::Done { .. } => if code == KeyCode::Enter || letter(code, 'o', 'O') {
            Some(Action::OpenResults)
        } else if letter(code, 'c', 'C') {
            Some(Action::CopyLink)
        } else if code == KeyCode::Esc {
            Some(Action::Back)
        } else {
            None
        },
        StageView::Failed(_) => if code == KeyCode::Esc || code == KeyCode::Enter {
            Some(Action::Back)
        } else {
            None
        },
        _ => None,
    }
}

/// What a key asks for on every screen but the first.
pub open spec fn global_keyed(screen: Screen, code: KeyCode) -> Option<Action> {
    if letter(code, 'f', 'F') {
        Some(Action::Feedback)
    } else if letter(code, 's', 'S') {
        Some(Action::Support)
    } else if letter(code, 'l', 'L') {
        Some(Action::Language)
    } else if code == KeyCode::Char('?') || letter(code, 'h', 'H') || code == KeyCode::F(1u8) {
        Some(Action::Help)
    } else if letter(code, 'q', 'Q') && screen != Screen::Running {
        Some(Action::Quit)
    } else {
        None
    }
}

impl AppView {
    /// What a key asks for on the screen.
    pub open spec fn screen_keyed(self, code: KeyCode) -> Option<Action> {
        match self.screen {
            Screen::Home => if code == KeyCode::Enter {
                Some(Action::Continue)
            } else if code == KeyCode::Left {
                Some(Action::PrevGpu)
            } else if code == KeyCode::Right {
                Some(Action::NextGpu)
            } else if letter(code, 'd', 'D') {
                Some(Action::Diagnostics)
            } else {
                None
            },
            Screen::Options => if code == KeyCode::Enter {
                Some(Action::Continue)
            } else if code == KeyCode::Esc {
                Some(Action::Back)
            } else {
                None
            },
            Screen::Confirm => if code == KeyCode::Enter {
                Some(Action::StartTest)
            } else if code == KeyCode::Esc {
                Some(Action::Back)
            } else {
                None
            },
            Screen::Running => if code == KeyCode::Esc || letter(code, 'q', 'Q') {
                Some(Action::StopTest)
            } else {
                None
            },
            Screen::Results => match self.results {
                Some(r) => results_keyed(r.submit, code),
                None => None,
            },
            Screen::Diagnostics => match self.diag {
                Some(d) => if scroll_by(code) != 0 {
                    None
                } else {
                    diagnostics_keyed(d.stage, code)
                },
                None => None,
            },
            Screen::Boot => None,
        }
    }

    /// The state with the log scrolled, where a key does that.
    pub open spec fn scrolled(self, code: KeyCode) -> AppView {
        match self.diag {
            Some(d) => if self.screen == Screen::Diagnostics {
                AppView {
                    diag: Some(DiagView { scroll: scrolled(d.scroll, scroll_by(code)), ..d }),
                    ..self
                }
            } else {
                self
            },
            None => self,
        }
    }

    /// Does what is asked for, if anything is.
    pub open spec fn acted_if(self, action: Option<Action>) -> (AppView, Seq<EffectView>) {
        match action {
            Some(a) => self.acted(a),
            None => (self, Seq::empty()),
        }
    }

    /// After a key in a dialog.
    pub open spec fn modal_keyed(self, key: Key) -> (AppView, Seq<EffectView>) {
        let d = dialog_keyed(self.modal->0, self.laptop(), key);
        AppView { modal: d.stays, quit: self.quit || d.quit, ..self }.acted_if(d.action)
    }

    /// After a key on the options, and whether it was consumed.  Left and right
    /// on the row of the cards change the card too.
    pub open spec fn options_keyed(self, key: Key) -> (AppView, Seq<EffectView>, bool) {
        let n = self.cards().len() as int;
        let (form, used) = edited(self.form, self.form.rows(self.laptop(), n, false), key, n);
        let a = AppView { form, ..self };
        if used && form.focus == Field::Gpu && (key.code == KeyCode::Left || key.code
            == KeyCode::Right) {
            let (b, e) = a.gpu_turned(key.code == KeyCode::Left);
            (b, e, true)
        } else {
            (a, Seq::empty(), used)
        }
    }

    /// After a key on a screen that has not used it otherwise.
    pub open spec fn plain_keyed(self, key: Key) -> (AppView, Seq<EffectView>) {
        if self.screen == Screen::Boot {
            self.acted_if(
                if letter(key.code, 'q', 'Q') {
                    Some(Action::Quit)
                } else {
                    None
                },
            )
        } else {
            match global_keyed(self.screen, key.code) {
                Some(a) => self.acted(a),
                None => self.scrolled(key.code).acted_if(self.screen_keyed(key.code)),
            }
        }
    }

    /// After a key.
    pub open spec fn keyed(self, key: Key) -> (AppView, Seq<EffectView>) {
        if key.ctrl && key.code == KeyCode::Char('c') {
            (self.quit_requested(), Seq::empty())
        } else if self.modal is Some {
            self.modal_keyed(key)
        } else if self.screen == Screen::Options {
            let (a, e, used) = self.options_keyed(key);
            if used {
                (a, e)
            } else {
                a.plain_keyed(key)
            }
        } else {
            self.plain_keyed(key)
        }
    }

    /// After a paste.
    pub open spec fn pasted(self, s: Seq<char>) -> AppView {
        match self.modal {
            Some(ModalView::Feedback(f)) => AppView {
                modal: Some(ModalView::Feedback(f.pasted(s))),
                ..self
            },
            Some(ModalView::EditDetails(f)) => AppView {
                modal: Some(ModalView::EditDetails(f.pasted(s))),
                ..self
            },
            Some(_) => self,
            None => if self.screen == Screen::Options {
                AppView { form: self.form.pasted(s), ..self }
            } else {
                self
            },
        }
    }

    /// After a turn of the mouse wheel: three lines of the log.
    pub open spec fn wheeled(self, up: bool) -> AppView {
        match self.diag {
            Some(d) => AppView {
                diag: Some(
                    DiagView {
                        scroll: scrolled(
                            d.scroll,
                            if up {
                                3
                            } else {
                                -3
                            },
                        ),
                        ..d
                    },
                ),
                ..self
            },
            None => self,
        }
    }
}

fn is_f1(code: KeyCode) -> (r: bool)
    ensures
        r == (code == KeyCode::F(1u8)),
{
    match code {
        KeyCode::F(n) => n == 1,
        _ => false,
    }
}

/// What a key does in a dialog.
pub struct Dialog {
    /// The dialog, if it stays.
    pub stays: Option<Modal>,
    /// What is asked for.
    pub action: Option<Action>,
    /// The program ends.
    pub quit: bool,
}

impl View for Dialog {
    type V = DialogView;

    open spec fn view(&self) -> DialogView {
        DialogView { stays: modal_of(self.stays), action: self.action, quit: self.quit }
    }
}

fn stay(m: Option<Modal>) -> (r: Dialog)
    ensures
        r@ == only(modal_of(m)),
{
    Dialog { stays: m, action: None, quit: false }
}

fn ask(m: Option<Modal>, action: Action) -> (r: Dialog)
    ensures
        r@ == asking(modal_of(m), action),
{
    Dialog { stays: m, action: Some(action), quit: false }
}

fn key_in_language(cursor: usize, code: KeyCode) -> (r: Dialog)
    requires
        cursor < 9,
    ensures
        r@ == language_keyed(cursor as int, code),
        r@.stays is Some ==> r@.stays->0.wf(),
        r@.action is Some ==> r@.action->0.wf(),
{
    match code {
        KeyCode::Esc => stay(None),
        KeyCode::Up => stay(
            Some(
                Modal::Language {
                    cursor: if cursor > 0 {
                        cursor - 1
                    } else {
                        0
                    },
                },
            ),
        ),
        KeyCode::Down => stay(
            Some(
                Modal::Language {
                    cursor: if cursor + 1 < 9 {
                        cursor + 1
                    } else {
                        8
                    },
                },
            ),
        ),
        KeyCode::Enter => ask(None, Action::SetLanguage(cursor)),
        _ => stay(Some(Modal::Language { cursor })),
    }
}

fn key_in_details(form: Form, laptop: bool, key: &Key) -> (r: Dialog)
    requires
        form@.wf(),
    ensures
        r@ == details_keyed(form@, laptop, *key),
        r@.stays is Some ==> r@.stays->0.wf(),
        r@.action is Some ==> r@.action->0.wf(),
{
    let mut form = form;
    match key.code {
        KeyCode::Esc => stay(None),
        KeyCode::Enter => ask(Some(Modal::EditDetails(form)), Action::SaveDetails),
        _ => {
            let rows: Vec<Field> = form.fields(laptop, 0, true);
            edit_form(&mut form, &rows, key, 0);
            stay(Some(Modal::EditDetails(form)))
        },
    }
}

fn key_in_feedback(fb: FeedbackForm, key: &Key) -> (r: Dialog)
    requires
        fb@.wf(),
    ensures
        r@ == feedback_keyed(fb@, *key),
        r@.stays is Some ==> r@.stays->0.wf(),
        r@.action is Some ==> r@.action->0.wf(),
{
    let mut f = fb;
    let send = f.key(key);
    let ended = matches!(f.state, FbState::Sent | FbState::Failed(_));
    let sending = matches!(f.state, FbState::Sending);
    let close = key.code == KeyCode::Esc || (ended && key.code == KeyCode::Enter);
    if close && !sending {
        stay(None)
    } else if send {
        ask(Some(Modal::Feedback(f)), Action::FbSend)
    } else {
        stay(Some(Modal::Feedback(f)))
    }
}

fn key_in_pawnio(removing: bool, error: Option<String>, code: KeyCode) -> (r: Dialog)
    ensures
        r@ == pawnio_keyed(removing, text_of(error), code),
        r@.stays is Some ==> r@.stays->0.wf(),
        r@.action is Some ==> r@.action->0.wf(),
{
    if removing {
        stay(Some(Modal::Pawnio { removing, error }))
    } else if error.is_some() {
        Dialog { stays: None, action: None, quit: true }
    } else if is_letter(code, 'u', 'U') {
        ask(Some(Modal::Pawnio { removing, error }), Action::UninstallPawnio)
    } else if is_letter(code, 'k', 'K') || code == KeyCode::Enter || is_letter(code, 'q', 'Q') {
        ask(Some(Modal::Pawnio { removing, error }), Action::KeepPawnio)
    } else if code == KeyCode::Esc {
        stay(None)
    } else {
        stay(Some(Modal::Pawnio { removing, error }))
    }
}

fn key_in_dialog(m: Modal, laptop: bool, key: &Key) -> (r: Dialog)
    requires
        m@.wf(),
    ensures
        r@ == dialog_keyed(m@, laptop, *key),
        r@.stays is Some ==> r@.stays->0.wf(),
        r@.action is Some ==> r@.action->0.wf(),
{
    let code = key.code;
    match m {
        Modal::Help => if code == KeyCode::Esc || code == KeyCode::Enter || is_letter(
            code,
            'q',
            'Q',
        ) || code == KeyCode::Char('?') || is_f1(code) {
            stay(None)
        } else {
            stay(Some(Modal::Help))
        },
        Modal::Language { cursor } => key_in_language(cursor, code),
        Modal::StopTest => if is_letter(code, 's', 'S') {
            ask(None, Action::ConfirmStop)
        } else if code == KeyCode::Enter || code == KeyCode::Esc {
            stay(None)
        } else {
            stay(Some(Modal::StopTest))
        },
        Modal::EditDetails(f) => key_in_details(f, laptop, key),
        Modal::Feedback(f) => key_in_feedback(f, key),
        Modal::Pawnio { removing, error } => key_in_pawnio(removing, error, code),
    }
}

fn key_on_results(submit: &SubmitState, code: KeyCode) -> (r: Option<Action>)
    ensures
        r == results_keyed(submit@, code),
        r is Some ==> r->0.wf(),
{
    let retry = match submit {
        SubmitState::Failed { retry, .. } => *retry,
        _ => false,
    };
    let failed = matches!(submit, SubmitState::Failed { .. });
    let ready = matches!(submit, SubmitState::Ready);
    let busy = ready || matches!(submit, SubmitState::Sending);
    let done = matches!(submit, SubmitState::Done { .. });
    if code == KeyCode::Enter {
        if ready || retry {
            Some(Action::Submit)
        } else if done {
            Some(Action::OpenResults)
        } else {
            Some(Action::RunAgain)
        }
    } else if is_letter(code, 'e', 'E') && failed {
        Some(Action::EditDetails)
    } else if is_letter(code, 'o', 'O') && done {
        Some(Action::OpenResults)
    } else if is_letter(code, 'c', 'C') && done {
        Some(Action::CopyLink)
    } else if is_letter(code, 'r', 'R') {
        if retry {
            Some(Action::Submit)
        } else if busy {
            None
        } else {
            Some(Action::RunAgain)
        }
    } else if code == KeyCode::Esc && !busy {
        Some(Action::RunAgain)
    } else {
        None
    }
}

fn scroll_of(code: KeyCode) -> (r: i8)
    ensures
        r == scroll_by(code),
        -10 <= r <= 10,
{
    match code {
        KeyCode::Up => 1,
        KeyCode::Down => -1,
        KeyCode::PageUp => 10,
        KeyCode::PageDown => -10,
        _ => 0,
    }
}

fn scroll_to(at: usize, by: i8) -> (r: usize)
    requires
        -10 <= by <= 10,
    ensures
        r == scrolled(at as int, by as int),
{
    if by < 0 {
        let n: usize = (-(by as i32)) as usize;
        if at < n {
            0
        } else {
            at - n
        }
    } else {
        let n: usize = by as usize;
        if at > usize::MAX - n {
            usize::MAX
        } else {
            at + n
        }
    }
}

fn key_on_diagnostics(stage: &DiagStage, code: KeyCode) -> (r: Option<Action>)
    ensures
        r == diagnostics_keyed(stage@, code),
        r is Some ==> r->0.wf(),
{
    match stage {
        DiagStage::Intro => if code == KeyCode::Enter {
            Some(Action::StartDiagnostics)
        } else if code == KeyCode::Esc {
            Some(Action::Back)
        } else {
            None
        },
        DiagStage::Done { .. } => if code == KeyCode::Enter || is_letter(code, 'o', 'O') {
            Some(Action::OpenResults)
        } else if is_letter(code, 'c', 'C') {
            Some(Action::CopyLink)
        } else if code == KeyCode::Esc {
            Some(Action::Back)
        } else {
            None
        },
        DiagStage::Failed(_) => if code == KeyCode::Esc || code == KeyCode::Enter {
            Some(Action::Back)
        } else {
            None
        },
        _ => None,
    }
}

fn key_anywhere(screen: Screen, code: KeyCode) -> (r: Option<Action>)
    ensures
        r == global_keyed(screen, code),
        r is Some ==> r->0.wf(),
{
    if is_letter(code, 'f', 'F') {
        Some(Action::Feedback)
    } else if is_letter(code, 's', 'S') {
        Some(Action::Support)
    } else if is_letter(code, 'l', 'L') {
        Some(Action::Language)
    } else if code == KeyCode::Char('?') || is_letter(code, 'h', 'H') || is_f1(code) {
        Some(Action::Help)
    } else if is_letter(code, 'q', 'Q') && screen != Screen::Running {
        Some(Action::Quit)
    } else {
        None
    }
}

impl App {
    fn key_on_screen(&self, code: KeyCode) -> (r: Option<Action>)
        ensures
            r == self@.screen_keyed(code),
            r is Some ==> r->0.wf(),
    {
        match self.screen {
            Screen::Home => if code == KeyCode::Enter {
                Some(Action::Continue)
            } else if code == KeyCode::Left {
                Some(Action::PrevGpu)
            } else if code == KeyCode::Right {
                Some(Action::NextGpu)
            } else if is_letter(code, 'd', 'D') {
                Some(Action::Diagnostics)
            } else {
                None
            },
            Screen::Options => if code == KeyCode::Enter {
                Some(Action::Continue)
            } else if code == KeyCode::Esc {
                Some(Action::Back)
            } else {
                None
            },
            Screen::Confirm => if code == KeyCode::Enter {
                Some(Action::StartTest)
            } else if code == KeyCode::Esc {
                Some(Action::Back)
            } else {
                None
            },
            Screen::Running => if code == KeyCode::Esc || is_letter(code, 'q', 'Q') {
                Some(Action::StopTest)
            } else {
                None
            },
            Screen::Results => match &self.results {
                Some(r) => key_on_results(&r.submit, code),
                None => None,
            },
            Screen::Diagnostics => match &self.diag {
                Some(d) => if scroll_of(code) != 0 {
                    None
                } else {
                    key_on_diagnostics(&d.stage, code)
                },
                None => None,
            },
            Screen::Boot => None,
        }
    }

    fn act_if(&mut self, action: Option<Action>) -> (r: Vec<Effect>)
        requires
            old(self)@.wf(),
            action is Some ==> action->0.wf(),
        ensures
            (final(self)@, effect_views(r@)) == old(self)@.acted_if(action),
            final(self)@.wf(),
    {
        match action {
            Some(a) => self.act(a),
            None => nothing(),
        }
    }

    fn modal_key(&mut self, key: &Key) -> (r: Vec<Effect>)
        requires
            old(self)@.wf(),
            old(self)@.modal is Some,
        ensures
            (final(self)@, effect_views(r@)) == old(self)@.modal_keyed(*key),
            final(self)@.wf(),
    {
        let laptop = self.is_laptop();
        match self.modal.take() {
            Some(m) => {
                let d = key_in_dialog(m, laptop, key);
                self.modal = d.stays;
                self.quit = self.quit || d.quit;
                self.act_if(d.action)
            },
            None => nothing(),
        }
    }

    fn options_key(&mut self, key: &Key) -> (r: (Vec<Effect>, bool))
        requires
            old(self)@.wf(),
        ensures
            (final(self)@, effect_views(r.0@), r.1) == old(self)@.options_keyed(*key),
            final(self)@.wf(),
    {
        let n: usize = self.gpu_count();
        let rows: Vec<Field> = self.form.fields(self.is_laptop(), n, false);
        let used = edit_form(&mut self.form, &rows, key, n);
        if used && self.form.focus == Field::Gpu && (key.code == KeyCode::Left || key.code
            == KeyCode::Right) {
            (self.turn_gpu(key.code == KeyCode::Left), true)
        } else {
            (nothing(), used)
        }
    }

    fn scroll_log(&mut self, code: KeyCode)
        requires
            old(self)@.wf(),
        ensures
            final(self)@ == old(self)@.scrolled(code),
            final(self)@.wf(),
    {
        if self.screen == Screen::Diagnostics {
            match &mut self.diag {
                Some(d) => {
                    d.scroll = scroll_to(d.scroll, scroll_of(code));
                },
                None => {},
            }
        }
    }

    fn plain_key(&mut self, key: &Key) -> (r: Vec<Effect>)
        requires
            old(self)@.wf(),
        ensures
            (final(self)@, effect_views(r@)) == old(self)@.plain_keyed(*key),
            final(self)@.wf(),
    {
        if self.screen == Screen::Boot {
            if is_letter(key.code, 'q', 'Q') {
                return self.act_if(Some(Action::Quit));
            }
            return self.act_if(None);
        }
        match key_anywhere(self.screen, key.code) {
            Some(a) => self.act(a),
            None => {
                let action = self.key_on_screen(key.code);
                self.scroll_log(key.code);
                self.act_if(action)
            },
        }
    }

    /// Handles a key press.
    pub fn on_key(&mut self, key: &Key) -> (r: Vec<Effect>)
        requires
            old(self)@.wf(),
        ensures
            (final(self)@, effect_views(r@)) == old(self)@.keyed(*key),
            final(self)@.wf(),
    {
        if key.ctrl && key.code == KeyCode::Char('c') {
            self.request_quit();
            return nothing();
        }
        if self.modal.is_some() {
            return self.modal_key(key);
        }
        if self.screen == Screen::Options {
            let (effects, used) = self.options_key(key);
            if used {
                return effects;
            }
        }
        self.plain_key(key)
    }

    /// Handles a paste.
    pub fn on_paste(&mut self, text: &str)
        requires
            old(self)@.wf(),
        ensures
            final(self)@ == old(self)@.pasted(text@),
            final(self)@.wf(),
    {
        match &mut self.modal {
            Some(Modal::Feedback(f)) => {
                f.paste(text);
            },
            Some(Modal::EditDetails(f)) => {
                f.paste(text);
            },
            Some(_) => {},
            None => {
                if self.screen == Screen::Options {
                    self.form.paste(text);
                }
            },
        }
    }

    /// Handles a turn of the mouse wheel.
    pub fn on_wheel(&mut self, up: bool)
        requires
            old(self)@.wf(),
        ensures
            final(self)@ == old(self)@.wheeled(up),
            final(self)@.wf(),
    {
        match &mut self.diag {
            Some(d) => {
                d.scroll = scroll_to(
                    d.scroll,
                    if up {
                        3
                    } else {
                        -3
                    },
                );
            },
            None => {},
        }
    }
}

// ---------------------------------------------------------------------------
// Events

/// The first card from `i` on with this name, or their number.
pub open spec fn named_card(gpus: Seq<GpuDevice>, name: Seq<char>, i: int) -> int
    decreases gpus.len() - i,
{
    if i < 0 || i >= gpus.len() || gpus[i].name@ == name {
        i
    } else {
        named_card(gpus, name, i + 1)
    }
}

/// The card to begin with: the one picked last time, else the best one.
pub open spec fn first_card(gpus: Seq<GpuDevice>, remembered: Option<Seq<char>>) -> int {
    match remembered {
        Some(name) if named_card(gpus, name, 0) < gpus.len() => named_card(gpus, name, 0),
        _ => best_place(gpu_views(gpus)),
    }
}

/// A machine of which nothing is known.
pub open spec fn blank_machine(h: HardwareInfo) -> bool {
    h.cpu_model is None && h.cpu_cores is None && h.cpu_threads is None && h.os is None
        && !h.is_laptop && h.gpus@.len() == 0
}

/// What an error of the API means for a submission: one that the server
/// refused is not tried again, unless it is the server's own fault.
pub open spec fn submit_failed(e: ApiErrorView) -> SubmitView {
    match e {
        ApiErrorView::Connection(s) => SubmitView::Failed { reason: s, retry: true },
        ApiErrorView::Rejected { status, message } => SubmitView::Failed {
            reason: message,
            retry: status >= 500,
        },
    }
}

impl AppView {
    /// After the start-up has found the machine.
    pub open spec fn booted(
        self,
        hw: HardwareInfo,
        setup: SensorSetup,
        machine_id: Seq<char>,
        on_battery: Option<bool>,
    ) -> (AppView, Seq<EffectView>) {
        let gpus = hw.gpus@;
        let a = AppView {
            hw: Some(hw),
            setup: Some(setup),
            sensing: true,
            gpu_index: first_card(gpus, self.settings.gpu_name),
            machine_id,
            on_battery,
            form: if gpus.len() == 0 && self.form.chosen().has_gpu() {
                FormView { test: 1, ..self.form }
            } else {
                self.form
            },
            screen: Screen::Home,
            ..self
        };
        (
            if self.opts.diagnostics {
                a.diagnostics_opened()
            } else {
                a
            },
            seq![
                EffectView::StartSensors {
                    lhm_dir: text_of(setup.lhm_dir),
                    gpu: a.selected(),
                    gpu_count: gpus.len(),
                    demo: self.opts.demo,
                },
            ],
        )
    }

    /// The finished run, shown, before it is submitted.
    pub open spec fn results_shown(self, plan: PlanView, progress: Progress) -> AppView {
        let verdict = judgement(plan.kind, progress@);
        AppView {
            results: Some(
                ResultsView {
                    plan,
                    progress,
                    verdict,
                    submit: match blocked(
                        self.opts.demo,
                        self.opts.no_submit,
                        self.site,
                        progress.stopped_early,
                        verdict.kind is Some,
                        (plan.duration / SECOND) as int,
                    ) {
                        Some(b) => SubmitView::Blocked(b),
                        None => SubmitView::Ready,
                    },
                    compare: CompareState::Idle,
                },
            ),
            screen: Screen::Results,
            ..self
        }
    }

    /// The diagnostics' log with its last lines, on its way.
    pub open spec fn log_sent(self, summary: Seq<Seq<char>>) -> (AppView, Seq<EffectView>) {
        let d = self.diag->0;
        let lines = d.lines + summary;
        (
            AppView {
                diag: Some(DiagView { lines, stage: StageView::Uploading, ..d }),
                screen: Screen::Diagnostics,
                ..self
            },
            seq![
                EffectView::UploadLog(
                    LogView {
                        log: joined(lines, "\n"@),
                        cpu_model: match self.hw {
                            Some(h) => text_of(h.cpu_model),
                            None => None,
                        },
                        gpu_model: match self.selected() {
                            Some(g) => Some(g.name),
                            None => None,
                        },
                        os: match self.hw {
                            Some(h) => text_of(h.os),
                            None => None,
                        },
                        cli_version: Some(self.version),
                    },
                ),
            ],
        )
    }

    /// After the test that runs has finished: the diagnostics go on, or the
    /// results are shown and submitted right away if they may be.
    pub open spec fn finished(
        self,
        progress: Progress,
        summary: Seq<Seq<char>>,
    ) -> (AppView, Seq<EffectView>) {
        match self.session {
            Some(plan) => if self.screen == Screen::Running {
                let a = AppView { session: None, modal: None, ..self };
                if self.diag is Some && self.diag->0.stage is Stress {
                    a.log_sent(summary)
                } else {
                    a.results_shown(plan, progress).submitted()
                }
            } else {
                (self, Seq::empty())
            },
            None => (self, Seq::empty()),
        }
    }

    /// The result to remember.
    pub open spec fn last_of(self, r: ResultsView, kind: TestKind, id: Seq<char>, at: Seq<char>) -> LastView {
        let p = self.payload(r, kind);
        LastView {
            id,
            machine_id: self.machine_id,
            at,
            test_type: p.test_type,
            cpu_idle: p.cpu_temp_idle,
            cpu_load: p.cpu_temp_load,
            gpu_idle: p.gpu_temp_idle,
            gpu_load: p.gpu_temp_load,
        }
    }

    /// After the submission has been answered with an id: the page is opened,
    /// the result is remembered and compared.
    pub open spec fn accepted(self, id: Seq<char>, at: Seq<char>) -> (AppView, Seq<EffectView>) {
        match self.results {
            Some(r) => if r.submit is Sending && r.verdict.kind is Some {
                let kind = r.verdict.kind->0;
                let url = page(self.site, self.locale, "/results/"@ + id);
                (
                    AppView {
                        results: Some(
                            ResultsView {
                                submit: SubmitView::Done { url },
                                compare: CompareState::Loading,
                                ..r
                            },
                        ),
                        farewell_url: Some(url),
                        settings: SettingsView {
                            last_result: Some(self.last_of(r, kind, id, at)),
                            ..self.settings
                        },
                        ..self
                    },
                    seq![
                        EffectView::SaveSettings,
                        EffectView::OpenResult(url),
                        EffectView::Compare(request_of(self.payload(r, kind), Some(id))),
                    ],
                )
            } else {
                (self, Seq::empty())
            },
            None => (self, Seq::empty()),
        }
    }

    /// After the submission has failed.
    pub open spec fn refused(self, e: ApiErrorView) -> AppView {
        match self.results {
            Some(r) => if r.submit is Sending {
                AppView {
                    results: Some(ResultsView { submit: submit_failed(e), ..r }),
                    ..self
                }
            } else {
                self
            },
            None => self,
        }
    }

    /// After the comparison has come, or has failed.
    pub open spec fn compared(self, c: Option<Comparison>) -> AppView {
        match self.results {
            Some(r) => if r.compare is Loading {
                AppView {
                    results: Some(
                        ResultsView {
                            compare: match c {
                                Some(x) => CompareState::Ready(x),
                                None => CompareState::Failed,
                            },
                            ..r
                        },
                    ),
                    ..self
                }
            } else {
                self
            },
            None => self,
        }
    }

    /// After the feedback has been answered.
    pub open spec fn feedback_answered(self, error: Option<Seq<char>>) -> AppView {
        match self.modal {
            Some(ModalView::Feedback(f)) => if f.state is Sending {
                AppView {
                    modal: Some(
                        ModalView::Feedback(
                            FeedbackView {
                                state: match error {
                                    Some(e) => FbStateView::Failed(e),
                                    None => FbStateView::Sent,
                                },
                                ..f
                            },
                        ),
                    ),
                    ..self
                }
            } else {
                self
            },
            _ => self,
        }
    }

    /// The diagnostics' stress test.
    pub open spec fn diagnostic_plan(self) -> PlanView {
        PlanView {
            kind: TestKind::Both,
            duration: (STRESS_SECONDS * SECOND) as u64,
            gpu: self.selected(),
        }
    }

    /// After the diagnostics have been collected: the stress test begins.
    pub open spec fn collected(self) -> (AppView, Seq<EffectView>) {
        match self.diag {
            Some(d) => if d.stage is Collecting {
                let a = AppView {
                    diag: Some(DiagView { stage: StageView::Stress, ..d }),
                    ..self
                };
                if self.sensing {
                    (
                        AppView {
                            session: Some(self.diagnostic_plan()),
                            screen: Screen::Running,
                            ..a
                        },
                        seq![EffectView::StartTest(self.diagnostic_plan())],
                    )
                } else {
                    (a, Seq::empty())
                }
            } else {
                (self, Seq::empty())
            },
            None => (self, Seq::empty()),
        }
    }

    /// After the log has been answered with an id.
    pub open spec fn log_accepted(self, id: Seq<char>) -> (AppView, Seq<EffectView>) {
        match self.diag {
            Some(d) => if d.stage is Uploading {
                let url = page(self.site, self.locale, "/debug/"@ + id);
                (
                    AppView {
                        diag: Some(DiagView { stage: StageView::Done { url }, ..d }),
                        farewell_url: Some(url),
                        ..self
                    },
                    seq![EffectView::OpenQuietly(url)],
                )
            } else {
                (self, Seq::empty())
            },
            None => (self, Seq::empty()),
        }
    }

    /// After the log could not be sent.
    pub open spec fn log_refused(self, e: Seq<char>) -> AppView {
        match self.diag {
            Some(d) => if d.stage is Uploading {
                AppView { diag: Some(DiagView { stage: StageView::Failed(e), ..d }), ..self }
            } else {
                self
            },
            None => self,
        }
    }

    /// After the driver was removed, or not.
    pub open spec fn driver_removed(self, error: Option<Seq<char>>) -> AppView {
        match self.modal {
            Some(ModalView::Pawnio { removing, error: _ }) => if removing {
                match error {
                    None => AppView { modal: None, quit: true, ..self },
                    Some(e) => AppView {
                        modal: Some(ModalView::Pawnio { removing: false, error: Some(e) }),
                        ..self
                    },
                }
            } else {
                self
            },
            _ => self,
        }
    }

    /// With a message.
    pub open spec fn toasted(self, t: ToastView, now: u64) -> AppView {
        AppView { toast: Some((t, now)), ..self }
    }

    /// As time passes: a message goes after a while.
    pub open spec fn ticked(self, now: u64) -> AppView {
        match self.toast {
            Some((_, at)) => if now > at + TOAST_FOR {
                AppView { toast: None, ..self }
            } else {
                self
            },
            None => self,
        }
    }

    /// With what changed since the last result, if that can be compared with.
    pub open spec fn re_testing(
        self,
        change: Option<Seq<char>>,
        at: Option<Moment>,
        now: Moment,
    ) -> AppView {
        match self.settings.last_result {
            Some(l) if change is Some && l.comparable(self.machine_id, at, now) => AppView {
                baseline: Some(l.id),
                change,
                ..self
            },
            _ => AppView { baseline: None, change: None, ..self },
        }
    }
}

fn find_card(gpus: &Vec<GpuDevice>, name: &str) -> (r: usize)
    ensures
        r == named_card(gpus@, name@, 0),
        r <= gpus.len(),
{
    let mut i: usize = 0;
    while i < gpus.len() && !same(gpus[i].name.as_str(), name)
        invariant
            i <= gpus.len(),
            named_card(gpus@, name@, 0) == named_card(gpus@, name@, i as int),
        decreases gpus.len() - i,
    {
        i = i + 1;
    }
    i
}

fn pick_card(gpus: &Vec<GpuDevice>, remembered: &Option<String>) -> (r: usize)
    ensures
        r == first_card(gpus@, text_of(*remembered)),
        gpus.len() > 0 ==> r < gpus.len(),
        gpus.len() == 0 ==> r == 0,
{
    match remembered {
        Some(name) => {
            let i: usize = find_card(gpus, name.as_str());
            if i < gpus.len() {
                return i;
            }
        },
        None => {},
    }
    default_index(gpus.as_slice())
}

impl App {
    /// The state at the start.
    pub fn new(
        locale: String,
        opts: LaunchOptions,
        settings: Settings,
        version: String,
        windows: bool,
    ) -> (r: App)
        ensures
            r@.wf(),
            r@.locale == locale@,
            r@.opts == opts,
            r@.site == root_of(opts.api_url@),
            r@.settings == settings@,
            r@.version == version@,
            r@.windows == windows,
            r@.screen == Screen::Boot,
            r@.form == first_form(settings, opts),
            r@.hw is None && r@.setup is None && !r@.sensing && r@.gpu_index == 0,
            r@.on_battery is None && r@.machine_id.len() == 0,
            r@.baseline is None && r@.change is None,
            r@.session is None && r@.results is None && r@.diag is None,
            r@.modal is None && r@.toast is None && !r@.quit,
            r@.farewell_url is None && !r@.pawnio_decided,
    {
        let form = Form::new(&settings, &opts);
        let site = site_root(opts.api_url.as_str());
        App {
            locale,
            opts,
            site,
            settings,
            version,
            windows,
            screen: Screen::Boot,
            hw: None,
            setup: None,
            sensing: false,
            gpu_index: 0,
            on_battery: None,
            machine_id: String::new(),
            form,
            baseline: None,
            change: None,
            session: None,
            results: None,
            diag: None,
            modal: None,
            toast: None,
            quit: false,
            farewell_url: None,
            pawnio_decided: false,
        }
    }

    /// The start-up has found the machine.
    pub fn finish_boot(
        &mut self,
        hw: HardwareInfo,
        setup: SensorSetup,
        machine_id: String,
        on_battery: Option<bool>,
    ) -> (r: Vec<Effect>)
        requires
            old(self)@.wf(),
        ensures
            (final(self)@, effect_views(r@)) == old(self)@.booted(
                hw,
                setup,
                machine_id@,
                on_battery,
            ),
            final(self)@.wf(),
    {
        self.gpu_index = pick_card(&hw.gpus, &self.settings.gpu_name);
        let gpu_count: usize = hw.gpus.len();
        if gpu_count == 0 && self.form.kind().gpu() {
            self.form.test = 1;
        }
        let lhm_dir = copy_text(&setup.lhm_dir);
        self.machine_id = machine_id;
        self.on_battery = on_battery;
        self.sensing = true;
        self.hw = Some(hw);
        self.setup = Some(setup);
        self.screen = Screen::Home;
        let gpu = self.selected_copy();
        if self.opts.diagnostics {
            self.open_diagnostics();
        }
        just(Effect::StartSensors { lhm_dir, gpu, gpu_count, demo: self.opts.demo })
    }

    /// The start-up failed: carry on with a machine of which nothing is known.
    pub fn boot_failed(&mut self)
        requires
            old(self)@.wf(),
        ensures
            final(self)@.hw is Some && blank_machine(final(self)@.hw->0),
            final(self)@ == (AppView {
                hw: final(self)@.hw,
                gpu_index: 0,
                screen: Screen::Home,
                ..old(self)@
            }),
            final(self)@.wf(),
    {
        self.hw = Some(
            HardwareInfo {
                cpu_model: None,
                cpu_cores: None,
                cpu_threads: None,
                os: None,
                is_laptop: false,
                gpus: Vec::new(),
            },
        );
        self.gpu_index = 0;
        self.screen = Screen::Home;
    }

    fn show_results(&mut self, plan: TestPlan, progress: Progress)
        requires
            old(self)@.wf(),
            progress@.wf(),
        ensures
            final(self)@ == old(self)@.results_shown(plan@, progress),
            final(self)@.wf(),
    {
        let verdict = verdict(plan.kind, &progress);
        let submit = match block_reason(
            self.opts.demo,
            self.opts.no_submit,
            self.site.as_str(),
            progress.stopped_early,
            verdict.kind.is_some(),
            plan.duration / SECOND,
        ) {
            Some(b) => SubmitState::Blocked(b),
            None => SubmitState::Ready,
        };
        self.results = Some(
            ResultsState { plan, progress, verdict, submit, compare: CompareState::Idle },
        );
        self.screen = Screen::Results;
    }

    fn finish_diagnostics(&mut self, summary: Vec<String>) -> (r: Vec<Effect>)
        requires
            old(self)@.wf(),
            old(self)@.diag is Some,
        ensures
            (final(self)@, effect_views(r@)) == old(self)@.log_sent(line_views(summary@)),
            final(self)@.wf(),
    {
        let (cpu_model, os) = match &self.hw {
            Some(h) => (copy_text(&h.cpu_model), copy_text(&h.os)),
            None => (None, None),
        };
        let gpu_model = match self.selected_gpu() {
            Some(g) => Some(g.name.clone()),
            None => None,
        };
        let version = self.version.clone();
        let mut log = String::new();
        match &mut self.diag {
            Some(d) => {
                let ghost before = line_views(d.lines@);
                let ghost more = line_views(summary@);
                let mut summary = summary;
                let ghost old_lines = d.lines@;
                let ghost old_summary = summary@;
                d.lines.append(&mut summary);
                assert(line_views(d.lines@) =~= before + more);
                log = join_lines(&d.lines, "\n");
                d.stage = DiagStage::Uploading;
            },
            None => {},
        }
        self.screen = Screen::Diagnostics;
        just(
            Effect::UploadLog(
                DebugLogPayload { log, cpu_model, gpu_model, os, cli_version: Some(version) },
            ),
        )
    }

    /// The test that runs has finished.  The summary holds the lines that a
    /// diagnostics' log ends with.
    pub fn on_finished(&mut self, progress: Progress, summary: Vec<String>) -> (r: Vec<Effect>)
        requires
            old(self)@.wf(),
            progress@.wf(),
        ensures
            (final(self)@, effect_views(r@)) == old(self)@.finished(
                progress,
                line_views(summary@),
            ),
            final(self)@.wf(),
    {
        if self.screen != Screen::Running || self.session.is_none() {
            return nothing();
        }
        match self.session.take() {
            Some(plan) => {
                self.modal = None;
                let stress = match &self.diag {
                    Some(d) => matches!(d.stage, DiagStage::Stress),
                    None => false,
                };
                if stress {
                    self.finish_diagnostics(summary)
                } else {
                    self.show_results(plan, progress);
                    self.submit()
                }
            },
            None => nothing(),
        }
    }

    fn result_to_keep(&self, p: &SubmissionPayload, id: &String, at: String) -> (r: LastResult)
        ensures
            r@ == (LastView {
                id: id@,
                machine_id: self@.machine_id,
                at: at@,
                test_type: p@.test_type,
                cpu_idle: p@.cpu_temp_idle,
                cpu_load: p@.cpu_temp_load,
                gpu_idle: p@.gpu_temp_idle,
                gpu_load: p@.gpu_temp_load,
            }),
    {
        LastResult {
            id: id.clone(),
            machine_id: self.machine_id.clone(),
            at,
            test_type: p.test_type.clone(),
            cpu_idle: p.cpu_temp_idle,
            cpu_load: p.cpu_temp_load,
            gpu_idle: p.gpu_temp_idle,
            gpu_load: p.gpu_temp_load,
        }
    }

    /// The submission was accepted, at a time in RFC 3339.
    pub fn on_accepted(&mut self, s: Submitted, at: String) -> (r: Vec<Effect>)
        requires
            old(self)@.wf(),
        ensures
            (final(self)@, effect_views(r@)) == old(self)@.accepted(s.id@, at@),
            final(self)@.wf(),
    {
        let payload = match &self.results {
            Some(r) => match (&r.submit, r.verdict.kind) {
                (SubmitState::Sending, Some(kind)) => self.payload(r, kind),
                _ => {
                    return nothing();
                },
            },
            None => {
                return nothing();
            },
        };
        let path = prefixed("/results/", s.id.as_str());
        let url = page_url(self.site.as_str(), self.locale.as_str(), path.as_str());
        let last = self.result_to_keep(&payload, &s.id, at);
        match &mut self.results {
            Some(r) => {
                r.submit = SubmitState::Done { url: url.clone() };
                r.compare = CompareState::Loading;
            },
            None => {},
        }
        self.farewell_url = Some(url.clone());
        self.settings.last_result = Some(last);
        let mut effects: Vec<Effect> = Vec::new();
        effects.push(Effect::SaveSettings);
        effects.push(Effect::OpenResult(url));
        let request = comparison(payload, Some(s.id));
        effects.push(Effect::Compare(request));
        assert(effect_views(effects@) =~= seq![
            EffectView::SaveSettings,
            EffectView::OpenResult(url@),
            EffectView::Compare(request@),
        ]);
        effects
    }

    /// The submission failed.
    pub fn on_refused(&mut self, e: ApiError)
        requires
            old(self)@.wf(),
        ensures
            final(self)@ == old(self)@.refused(e@),
            final(self)@.wf(),
    {
        match &mut self.results {
            Some(r) => {
                if matches!(r.submit, SubmitState::Sending) {
                    r.submit = match e {
                        ApiError::Connection(s) => SubmitState::Failed { reason: s, retry: true },
                        ApiError::Rejected { status, message } => SubmitState::Failed {
                            reason: message,
                            retry: status >= 500,
                        },
                    };
                }
            },
            None => {},
        }
    }

    /// The comparison has come, or has failed.
    pub fn on_compared(&mut self, c: Option<Comparison>)
        requires
            old(self)@.wf(),
        ensures
            final(self)@ == old(self)@.compared(c),
            final(self)@.wf(),
    {
        match &mut self.results {
            Some(r) => {
                if matches!(r.compare, CompareState::Loading) {
                    r.compare = match c {
                        Some(x) => CompareState::Ready(x),
                        None => CompareState::Failed,
                    };
                }
            },
            None => {},
        }
    }

    /// The feedback was sent, or was not.
    pub fn on_feedback(&mut self, error: Option<String>)
        requires
            old(self)@.wf(),
        ensures
            final(self)@ == old(self)@.feedback_answered(text_of(error)),
            final(self)@.wf(),
    {
        match &mut self.modal {
            Some(Modal::Feedback(f)) => {
                if matches!(f.state, FbState::Sending) {
                    f.state = match error {
                        Some(e) => FbState::Failed(e),
                        None => FbState::Sent,
                    };
                }
            },
            _ => {},
        }
    }

    /// The diagnostics have a line more.
    pub fn on_line(&mut self, line: String)
        requires
            old(self)@.wf(),
        ensures
            final(self)@ == (match old(self)@.diag {
                Some(d) => AppView {
                    diag: Some(DiagView { lines: d.lines.push(line@), ..d }),
                    ..old(self)@
                },
                None => old(self)@,
            }),
            final(self)@.wf(),
    {
        match &mut self.diag {
            Some(d) => {
                let ghost before = line_views(d.lines@);
                let ghost more = line@;
                d.lines.push(line);
                assert(line_views(d.lines@) =~= before.push(more));
            },
            None => {},
        }
    }

    /// The diagnostics have been collected.
    pub fn on_collected(&mut self) -> (r: Vec<Effect>)
        requires
            old(self)@.wf(),
        ensures
            (final(self)@, effect_views(r@)) == old(self)@.collected(),
            final(self)@.wf(),
    {
        match &mut self.diag {
            Some(d) => {
                if !matches!(d.stage, DiagStage::Collecting) {
                    return nothing();
                }
                d.stage = DiagStage::Stress;
            },
            None => {
                return nothing();
            },
        }
        if !self.sensing {
            return nothing();
        }
        let plan = TestPlan {
            kind: TestKind::Both,
            duration: STRESS_SECONDS * SECOND,
            gpu: self.selected_copy(),
        };
        let same_plan = TestPlan {
            kind: TestKind::Both,
            duration: STRESS_SECONDS * SECOND,
            gpu: self.selected_copy(),
        };
        self.session = Some(plan);
        self.screen = Screen::Running;
        just(Effect::StartTest(same_plan))
    }

    /// A local copy of the log was kept.
    pub fn on_saved(&mut self, path: String)
        requires
            old(self)@.wf(),
        ensures
            final(self)@ == (match old(self)@.diag {
                Some(d) => AppView {
                    diag: Some(DiagView { saved: Some(path@), ..d }),
                    ..old(self)@
                },
                None => old(self)@,
            }),
            final(self)@.wf(),
    {
        match &mut self.diag {
            Some(d) => {
                d.saved = Some(path);
            },
            None => {},
        }
    }

    /// The log was accepted.
    pub fn on_uploaded(&mut self, id: &str) -> (r: Vec<Effect>)
        requires
            old(self)@.wf(),
        ensures
            (final(self)@, effect_views(r@)) == old(self)@.log_accepted(id@),
            final(self)@.wf(),
    {
        let path = prefixed("/debug/", id);
        let url = page_url(self.site.as_str(), self.locale.as_str(), path.as_str());
        match &mut self.diag {
            Some(d) => {
                if !matches!(d.stage, DiagStage::Uploading) {
                    return nothing();
                }
                d.stage = DiagStage::Done { url: url.clone() };
            },
            None => {
                return nothing();
            },
        }
        self.farewell_url = Some(url.clone());
        just(Effect::OpenQuietly(url))
    }

    /// The log could not be sent.
    pub fn on_upload_failed(&mut self, e: &ApiError)
        requires
            old(self)@.wf(),
        ensures
            final(self)@ == old(self)@.log_refused(e@.shown()),
            final(self)@.wf(),
    {
        match &mut self.diag {
            Some(d) => {
                if matches!(d.stage, DiagStage::Uploading) {
                    d.stage = DiagStage::Failed(e.text());
                }
            },
            None => {},
        }
    }

    /// The driver was removed, or was not.
    pub fn on_driver_removed(&mut self, error: Option<String>)
        requires
            old(self)@.wf(),
        ensures
            final(self)@ == old(self)@.driver_removed(text_of(error)),
            final(self)@.wf(),
    {
        let removing = match &self.modal {
            Some(Modal::Pawnio { removing, .. }) => *removing,
            _ => false,
        };
        if removing {
            match error {
                None => {
                    self.modal = None;
                    self.quit = true;
                },
                Some(e) => {
                    self.modal = Some(Modal::Pawnio { removing: false, error: Some(e) });
                },
            }
        }
    }

    /// A page was opened, or was not, and the user is told.
    pub fn on_opened(&mut self, url: String, opened: bool, now: u64)
        requires
            old(self)@.wf(),
        ensures
            final(self)@ == old(self)@.toasted(
                if opened {
                    ToastView::Opened(url@)
                } else {
                    ToastView::OpenFailed(url@)
                },
                now,
            ),
            final(self)@.wf(),
    {
        self.toast = Some(
            (
                if opened {
                    Toast::Opened(url)
                } else {
                    Toast::OpenFailed(url)
                },
                now,
            ),
        );
    }

    /// A link was copied, or was not.
    pub fn on_copied(&mut self, copied: bool, now: u64)
        requires
            old(self)@.wf(),
        ensures
            final(self)@ == old(self)@.toasted(
                if copied {
                    ToastView::Copied
                } else {
                    ToastView::CopyFailed
                },
                now,
            ),
            final(self)@.wf(),
    {
        self.toast = Some(
            (
                if copied {
                    Toast::Copied
                } else {
                    Toast::CopyFailed
                },
                now,
            ),
        );
    }

    /// Time has passed.
    pub fn tick(&mut self, now: u64)
        requires
            old(self)@.wf(),
        ensures
            final(self)@ == old(self)@.ticked(now),
            final(self)@.wf(),
    {
        let over = match &self.toast {
            Some((_, at)) => now > *at && now - *at > TOAST_FOR,
            None => false,
        };
        if over {
            self.toast = None;
        }
    }

    /// Says what changed since the last result, which was submitted `at` a
    /// moment.
    pub fn re_test(&mut self, change: Option<String>, at: Option<Moment>, now: Moment)
        requires
            old(self)@.wf(),
        ensures
            final(self)@ == old(self)@.re_testing(text_of(change), at, now),
            final(self)@.wf(),
    {
        let baseline = match &self.settings.last_result {
            Some(l) => if change.is_some() && l.usable_since(self.machine_id.as_str(), at, now) {
                Some(l.id.clone())
            } else {
                None
            },
            None => None,
        };
        self.change = if baseline.is_some() {
            change
        } else {
            None
        };
        self.baseline = baseline;
    }
}

// ---------------------------------------------------------------------------
// Laws

/// Some of the effects is a submission.
pub open spec fn submits_something(effects: Seq<EffectView>) -> bool {
    exists|i: int| 0 <= i < effects.len() && (#[trigger] effects[i]) is Submit
}

/// A result is only ever sent by an action while it waits to be sent or may be
/// tried again; one that is blocked, under way, done or refused for good is
/// not.
#[verifier::spinoff_prover]
#[verifier::rlimit(40)]
pub proof fn lemma_submitted_only_when_ready(a: AppView, action: Action)
    requires
        submits_something(a.acted(action).1),
    ensures
        a.results is Some,
        a.results->0.submit is Ready || (a.results->0.submit is Failed
            && a.results->0.submit->retry),
        a.results->0.verdict.kind is Some,
        a.acted(action).0.results is Some && a.acted(action).0.results->0.submit is Sending,
{
    let e = a.acted(action).1;
    let i = choose|i: int| 0 <= i < e.len() && (#[trigger] e[i]) is Submit;
    assert(e[i] is Submit);
}

/// The same holds of keys.
pub proof fn lemma_keys_submit_only_when_ready(a: AppView, key: Key)
    requires
        submits_something(a.keyed(key).1),
    ensures
        a.results is Some,
        a.results->0.submit is Ready || (a.results->0.submit is Failed
            && a.results->0.submit->retry),
        a.results->0.verdict.kind is Some,
{
    let blocked = !(a.results is Some && (a.results->0.submit is Ready || (
    a.results->0.submit is Failed && a.results->0.submit->retry))
        && a.results->0.verdict.kind is Some);
    if blocked {
        assert forall|b: AppView, action: Action|
            b.results == a.results implies !submits_something(#[trigger] b.acted(action).1) by {
            if submits_something(b.acted(action).1) {
                lemma_submitted_only_when_ready(b, action);
            }
        }
        let d = dialog_keyed(a.modal->0, a.laptop(), key);
        let m = AppView { modal: d.stays, quit: a.quit || d.quit, ..a };
        assert(m.results == a.results);
        let (o, e, used) = a.options_keyed(key);
        assert(o.results == a.results);
        assert(o.scrolled(key.code).results == a.results);
        assert(a.scrolled(key.code).results == a.results);
        assert(!submits_something(Seq::<EffectView>::empty()));
    }
}

/// A completed test with valid figures, of a minute or longer, is submitted
/// right away, unless the user asked not to or its figures are simulated and
/// would leave the machine.
pub proof fn lemma_completed_test_is_submitted(
    a: AppView,
    progress: Progress,
    summary: Seq<Seq<char>>,
)
    requires
        a.screen == Screen::Running,
        a.session is Some,
        !(a.diag is Some && a.diag->0.stage is Stress),
        judgement(a.session->0.kind, progress@).kind is Some,
        a.session->0.duration >= 60 * SECOND,
        !a.opts.no_submit,
        a.opts.demo ==> local_site(a.site),
    ensures
        a.finished(progress, summary).1.len() == 1,
        a.finished(progress, summary).1[0] is Submit,
        a.finished(progress, summary).0.results is Some,
        a.finished(progress, summary).0.results->0.submit is Sending,
{
    let plan = a.session->0;
    assert(plan.duration / SECOND >= 60);
    let b = AppView { session: None, modal: None, ..a }.results_shown(plan, progress);
    assert(b.results->0.submit is Ready);
}

/// A test that was stopped early, has no valid figures, is a quick one, is
/// asked to be kept, or is simulated and would leave the machine, is not
/// submitted, and stays so whatever the user does to it.
pub proof fn lemma_kept_test_is_not_submitted(
    a: AppView,
    progress: Progress,
    summary: Seq<Seq<char>>,
    action: Action,
)
    requires
        a.screen == Screen::Running,
        a.session is Some,
        !(a.diag is Some && a.diag->0.stage is Stress),
        progress.stopped_early || judgement(a.session->0.kind, progress@).kind is None
            || a.session->0.duration < 60 * SECOND || a.opts.no_submit || (a.opts.demo
            && !local_site(a.site)),
    ensures
        a.finished(progress, summary).1.len() == 0,
        a.finished(progress, summary).0.results is Some,
        a.finished(progress, summary).0.results->0.submit is Blocked,
        !submits_something(a.finished(progress, summary).0.acted(action).1),
{
    let plan = a.session->0;
    assert(plan.duration < 60 * SECOND ==> plan.duration / SECOND < 60);
    let b = AppView { session: None, modal: None, ..a }.results_shown(plan, progress);
    assert(b.results->0.submit is Blocked);
    let f = a.finished(progress, summary).0;
    assert(f == b);
    if submits_something(f.acted(action).1) {
        lemma_submitted_only_when_ready(f, action);
    }
}

/// The next card and then the one before is the one chosen, and so the other
/// way round.
pub proof fn lemma_gpu_there_and_back(a: AppView, left: bool)
    requires
        a.wf(),
    ensures
        a.gpu_turned(left).0.gpu_turned(!left).0 == a,
{
    if a.cards().len() > 1 {
        crate::form::lemma_turning_back(a.gpu_index, a.cards().len() as int, left);
    }
}

/// The program never ends while a test runs: the user is asked first.
pub proof fn lemma_no_quit_while_testing(a: AppView)
    requires
        a.session is Some,
    ensures
        a.quit_requested().quit == a.quit,
        a.quit_requested().modal == Some(ModalView::StopTest),
        a.acted(Action::Quit).0.session == a.session,
{
}

/// A test can be stopped at any time: Escape asks, and "S" stops it.
pub proof fn lemma_stop_at_any_time(a: AppView)
    requires
        a.screen == Screen::Running,
        a.session is Some,
        a.modal is None,
        a.diag is Some ==> 0 <= a.diag->0.scroll <= usize::MAX,
    ensures
        ({
            let asked = a.keyed(Key { code: KeyCode::Esc, ctrl: false }).0;
            &&& asked.modal == Some(ModalView::StopTest)
            &&& asked.session == a.session
            &&& asked.keyed(Key { code: KeyCode::Char('s'), ctrl: false }).1
                == seq![EffectView::StopTest]
        }),
{
    assert(a.scrolled(KeyCode::Esc) =~= a);
}

/// The chosen card is the one whose sensors are read, that is stressed, and
/// whose model is submitted.
pub proof fn lemma_chosen_card_is_used(
    a: AppView,
    index: int,
    progress: Progress,
    summary: Seq<Seq<char>>,
)
    requires
        a.wf(),
        a.sensing,
        0 <= index < a.cards().len(),
        index != a.gpu_index,
        a.form.chosen().has_gpu(),
        !(a.diag is Some && a.diag->0.stage is Stress),
    ensures
        ({
            let card = a.cards()[index]@;
            let (b, effects) = a.gpu_selected(index);
            let run = b.test_started().0;
            let done = run.finished(progress, summary);
            &&& effects == seq![EffectView::SelectGpu(Some(card))]
            &&& b.test_started().1 == seq![EffectView::StartTest(b.planned())]
            &&& b.planned().gpu == Some(card)
            &&& done.1.len() > 0 ==> done.1 == seq![done.1[0]] && done.1[0] is Submit
                && done.1[0]->Submit_0.gpu_model == Some(card.name)
        }),
{
}

/// A driver that this session installed is not left behind unasked: the user
/// is asked before the program ends.
pub proof fn lemma_driver_is_asked_about(a: AppView)
    requires
        a.session is None,
        a.windows,
        a.setup is Some && a.setup->0.driver@ is InstalledNow,
        !a.pawnio_decided,
    ensures
        a.acted(Action::Quit).0.quit == a.quit,
        a.acted(Action::Quit).0.modal == Some(
            ModalView::Pawnio { removing: false, error: None },
        ),
        a.acted(Action::Quit).0.acted(Action::KeepPawnio).0.quit,
        a.acted(Action::Quit).0.acted(Action::UninstallPawnio).1 == seq![EffectView::RemoveDriver],
{
}

/// Answers that are remembered are those that the form begins with the next
/// time, where the command line says nothing else.
pub proof fn lemma_answers_are_remembered(a: AppView, settings: Settings, opts: LaunchOptions)
    requires
        a.form.wf(),
        a.form.secs() is Some,
        !(a.form.room() is Unusable),
        a.form.cooler_model.max_chars <= 120,
        a.form.laptop_model.max_chars <= 120,
        settings@ == a.remembered().settings,
        opts.test is None && opts.duration is None && opts.cooling_type is None
            && opts.cooling_model is None && opts.ambient_temp is None,
    ensures
        ({
            let next = first_form(settings, opts);
            &&& next.chosen() == a.form.chosen()
            &&& next.secs() == a.form.secs()
            &&& next.room() == a.form.room()
            &&& a.laptop() ==> next.laptop_model.entry() == a.form.laptop_model.entry()
            &&& !a.laptop() ==> next.cooling == a.form.cooling && next.cooler_model.entry()
                == a.form.cooler_model.entry()
        }),
{
    let f = a.form;
    crate::engine::lemma_codes(f.chosen(), Seq::empty());
    crate::form::lemma_duration_comes_back(f.secs()->0);
    match f.room() {
        crate::form::Ambient::Celsius(c) => {
            assert(c % (crate::fixed::TENTH as int) == 0);
            crate::form::lemma_room_comes_back(c);
        },
        _ => {
            let empty = Seq::<char>::empty();
            assert(crate::text::trimmed(empty) =~= empty);
            assert(crate::text::lower(empty) =~= empty);
        },
    }
    if a.laptop() {
        crate::form::lemma_entry_comes_back(f.laptop_model, 120);
    } else {
        crate::form::lemma_entry_comes_back(f.cooler_model, 120);
        crate::form::lemma_cooling_comes_back(f.cooling);
    }
}

proof fn lemma_named_card(gpus: Seq<GpuDevice>, name: Seq<char>, i: int)
    requires
        0 <= i <= gpus.len(),
    ensures
        ({
            let p = named_card(gpus, name, i);
            &&& i <= p <= gpus.len()
            &&& p < gpus.len() ==> gpus[p].name@ == name
            &&& forall|j: int| i <= j < p ==> (#[trigger] gpus[j]).name@ != name
        }),
    decreases gpus.len() - i,
{
    if i < gpus.len() && gpus[i].name@ != name {
        lemma_named_card(gpus, name, i + 1);
    }
}

/// The card to begin with is the remembered one where it is still there, else a
/// discrete one where there is any, and of its kind one with the most memory.
pub proof fn lemma_first_card(gpus: Seq<GpuDevice>, remembered: Option<Seq<char>>)
    requires
        gpus.len() > 0,
    ensures
        ({
            let c = first_card(gpus, remembered);
            let there = remembered is Some && exists|i: int|
                0 <= i < gpus.len() && (#[trigger] gpus[i]).name@ == remembered->0;
            let size = |i: int|
                match gpus[i].vram_bytes {
                    Some(n) => n as int,
                    None => 0,
                };
            &&& 0 <= c < gpus.len()
            &&& there ==> gpus[c].name@ == remembered->0
            &&& !there ==> forall|i: int|
                0 <= i < gpus.len() ==> {
                    &&& (#[trigger] gpus[i]).kind == GpuKind::Discrete ==> gpus[c].kind
                        == GpuKind::Discrete
                    &&& (gpus[i].kind == GpuKind::Discrete) == (gpus[c].kind == GpuKind::Discrete)
                        ==> size(i) <= size(c)
                }
        }),
{
    if remembered is Some {
        lemma_named_card(gpus, remembered->0, 0);
    }
    let views = gpu_views(gpus);
    crate::gpus::lemma_best_place(views);
    let b = best_place(views);
    assert forall|i: int| 0 <= i < gpus.len() implies #[trigger] views[i] == gpus[i]@ by {}
    assert forall|i: int| 0 <= i < gpus.len() implies crate::gpus::as_good(
        gpus[b]@,
        (#[trigger] gpus[i])@,
    ) by {
        assert(views[i] == gpus[i]@);
    }
}

/// From the start-up on, the sensors of the chosen card are read, and without a
/// card only the CPU can be tested.
pub proof fn lemma_booted(
    a: AppView,
    hw: HardwareInfo,
    setup: SensorSetup,
    machine_id: Seq<char>,
    on_battery: Option<bool>,
)
    requires
        a.form.wf(),
    ensures
        ({
            let (b, effects) = a.booted(hw, setup, machine_id, on_battery);
            &&& b.sensing && b.machine_id == machine_id && b.on_battery == on_battery
            &&& b.gpu_index == first_card(hw.gpus@, a.settings.gpu_name)
            &&& effects.len() == 1 && effects[0] is StartSensors
            &&& effects[0]->gpu == b.selected()
            &&& hw.gpus@.len() == 0 ==> b.form.chosen() == TestKind::Cpu && b.selected() is None
            &&& hw.gpus@.len() > 0 ==> b.form.chosen() == a.form.chosen()
        }),
{
}

/// A submission that the server refused is never sent again; one that did not
/// reach it, or that it failed at itself, may be, and is then sent unchanged.
pub proof fn lemma_tried_again(a: AppView, e: ApiErrorView)
    requires
        a.results is Some,
        a.results->0.submit is Sending,
        a.results->0.verdict.kind is Some,
    ensures
        ({
            let b = a.refused(e);
            let r = a.results->0;
            let temporary = e is Connection || e->status >= 500;
            &&& b.results is Some && b.results->0.submit is Failed
            &&& b.results->0.submit->retry == temporary
            &&& !temporary ==> b.submitted() == (b, Seq::<EffectView>::empty())
            &&& temporary ==> b.submitted().1 == seq![
                EffectView::Submit(a.payload(r, r.verdict.kind->0)),
            ]
            &&& e is Connection ==> b.results->0.submit->reason == e->Connection_0
            &&& e is Rejected ==> b.results->0.submit->reason == e->message
        }),
{
    let b = a.refused(e);
    let r = a.results->0;
    let q = b.results->0;
    assert(q.plan == r.plan && q.progress == r.progress && q.verdict == r.verdict);
    assert(b.payload(q, r.verdict.kind->0) == a.payload(r, r.verdict.kind->0));
}

/// A submission that is accepted is done: its page is opened and kept for the
/// end, what it submitted is remembered and compared under the identity that it
/// got, and no second answer changes anything.
pub proof fn lemma_accepted_once(a: AppView, id: Seq<char>, at: Seq<char>, other: Seq<char>)
    requires
        a.results is Some,
        a.results->0.submit is Sending,
        a.results->0.verdict.kind is Some,
    ensures
        ({
            let (b, effects) = a.accepted(id, at);
            let p = a.payload(a.results->0, a.results->0.verdict.kind->0);
            let last = b.settings.last_result;
            &&& b.results is Some && b.results->0.submit is Done
            &&& b.farewell_url == Some(b.results->0.submit->Done_url)
            &&& b.farewell_url == Some(page(a.site, a.locale, "/results/"@ + id))
            &&& effects.contains(EffectView::OpenResult(b.farewell_url->0))
            &&& effects.contains(EffectView::SaveSettings)
            &&& effects.contains(EffectView::Compare(request_of(p, Some(id))))
            &&& last is Some && last->0.id == id && last->0.machine_id == a.machine_id
            &&& last->0.at == at && last->0.test_type == p.test_type
            &&& last->0.cpu_idle == p.cpu_temp_idle && last->0.cpu_load == p.cpu_temp_load
            &&& last->0.gpu_idle == p.gpu_temp_idle && last->0.gpu_load == p.gpu_temp_load
            &&& b.accepted(other, at) == (b, Seq::<EffectView>::empty())
            &&& b.submitted() == (b, Seq::<EffectView>::empty())
        }),
{
    let (b, effects) = a.accepted(id, at);
    assert(effects[0] == EffectView::SaveSettings);
    assert(effects[1] == EffectView::OpenResult(b.farewell_url->0));
    assert(effects.len() == 3);
    assert(effects.contains(effects[2]));
}

/// Answers that nobody waits for change nothing.
pub proof fn lemma_unexpected_answers(
    a: AppView,
    id: Seq<char>,
    e: ApiErrorView,
    c: Option<Comparison>,
    error: Option<Seq<char>>,
)
    ensures
        !(a.results is Some && a.results->0.submit is Sending) ==> a.accepted(id, id) == (
            a,
            Seq::<EffectView>::empty(),
        ) && a.refused(e) == a,
        !(a.results is Some && a.results->0.compare is Loading) ==> a.compared(c) == a,
        !(a.diag is Some && a.diag->0.stage is Uploading) ==> a.log_accepted(id) == (
            a,
            Seq::<EffectView>::empty(),
        ) && a.log_refused(id) == a,
        !(a.modal is Some && a.modal->0 is Feedback) ==> a.feedback_answered(error) == a,
        !(a.modal is Some && a.modal->0 is Pawnio) ==> a.driver_removed(error) == a,
{
}

/// A re-test is linked to the last result exactly where the user says what
/// changed and that result is comparable; both go with what is submitted, and
/// neither goes alone.
pub proof fn lemma_re_test_is_linked(
    a: AppView,
    change: Option<Seq<char>>,
    at: Option<Moment>,
    now: Moment,
)
    ensures
        ({
            let b = a.re_testing(change, at, now);
            let l = a.settings.last_result;
            let linked = change is Some && l is Some && l->0.comparable(a.machine_id, at, now);
            &&& linked ==> b.baseline == Some(l->0.id) && b.change == change
            &&& !linked ==> b.baseline is None && b.change is None
            &&& b.details().baseline_id == b.baseline && b.details().change_type == b.change
            &&& b == (AppView { baseline: b.baseline, change: b.change, ..a })
        }),
{
}

/// A message goes once five seconds are over, and not before.
pub proof fn lemma_message_stays_five_seconds(a: AppView, t: ToastView, then: u64, now: u64)
    ensures
        a.toasted(t, then).toast == Some((t, then)),
        now <= then + 5_000_000_000 ==> a.toasted(t, then).ticked(now) == a.toasted(t, then),
        now > then + 5_000_000_000 ==> a.toasted(t, then).ticked(now).toast is None,
{
}

/// The options are left only with a duration and a room's temperature that can be
/// used; then they are saved, and without a card the CPU alone is tested.
pub proof fn lemma_options_confirmed(a: AppView)
    requires
        a.form.wf(),
    ensures
        ({
            let (b, effects) = a.options_confirmed();
            let usable = a.form.secs() is Some && !(a.form.room() is Unusable);
            &&& usable ==> b.screen == Screen::Confirm && b.form.error is None && effects == seq![
                EffectView::SaveSettings,
            ]
            &&& !usable ==> b.screen == a.screen && effects.len() == 0 && b.form.error is Some
                && b.settings == a.settings
            &&& a.form.secs() is None ==> b.form.error == Some(FormError::Duration) && b.form.focus
                == Field::CustomSecs
            &&& a.form.secs() is Some && !usable ==> b.form.error == Some(FormError::Ambient)
                && b.form.focus == Field::Ambient
            &&& usable && a.cards().len() == 0 ==> b.form.chosen() == TestKind::Cpu
            &&& usable && a.cards().len() > 0 ==> b.form.chosen() == a.form.chosen()
        }),
{
}

/// The test that is started is the one in the form: as long, of the same parts,
/// and of the chosen card where a card is tested.
pub proof fn lemma_started_as_chosen(a: AppView)
    requires
        a.form.wf(),
        a.form.secs() is Some,
        a.sensing,
    ensures
        ({
            let (b, effects) = a.test_started();
            let plan = a.planned();
            &&& effects == seq![EffectView::StartTest(plan)]
            &&& b.session == Some(plan) && b.screen == Screen::Running && b.results is None
            &&& plan.kind == a.form.chosen()
            &&& plan.duration == a.form.secs()->0 * 1_000_000_000
            &&& plan.kind == TestKind::Cpu ==> plan.gpu is None
            &&& plan.kind != TestKind::Cpu ==> plan.gpu == a.selected()
        }),
{
    crate::form::lemma_duration_range(a.form);
}

/// Every test that ends gives way to its results or to the diagnostics' log, and
/// no test is left running.
pub proof fn lemma_finished(a: AppView, progress: Progress, summary: Seq<Seq<char>>)
    requires
        a.session is Some,
        a.screen == Screen::Running,
    ensures
        ({
            let (b, effects) = a.finished(progress, summary);
            let stress = a.diag is Some && a.diag->0.stage is Stress;
            &&& b.session is None && b.modal is None
            &&& stress ==> b.screen == Screen::Diagnostics && b.diag->0.stage is Uploading
                && b.diag->0.lines == a.diag->0.lines + summary && !submits_something(effects)
            &&& !stress ==> b.screen == Screen::Results && b.results is Some
                && b.results->0.progress == progress && b.results->0.plan == a.session->0
                && b.results->0.verdict == judgement(a.session->0.kind, progress@)
        }),
{
    let effects = a.finished(progress, summary).1;
    if a.diag is Some && a.diag->0.stage is Stress {
        assert(effects.len() == 1 && effects[0] is UploadLog);
    }
}

/// Feedback is sent exactly where it has a message and was not sent yet, with
/// what was typed and chosen, and without the summary of the machine; whether
/// that goes along is the user's choice.
pub proof fn lemma_feedback_sent(a: AppView, f: FeedbackView)
    requires
        f.wf(),
        a.modal == Some(ModalView::Feedback(f)),
    ensures
        ({
            let (b, effects) = a.feedback_sent();
            let sends = !(f.state is Sending) && !(f.state is Sent) && f.message.entry() is Some;
            &&& sends <==> effects.len() == 1
            &&& !sends ==> effects.len() == 0
            &&& sends ==> {
                &&& effects[0] is SendFeedback && effects[0]->include_info == f.include_info
                &&& effects[0]->payload.rating == f.rating
                &&& Some(effects[0]->payload.message) == f.message.entry()
                &&& effects[0]->payload.email == f.email.entry()
                &&& effects[0]->payload.diagnostics is None
                &&& b.feedback_sent() == (b, Seq::<EffectView>::empty())
            }
        }),
{
}

/// A rating is between one and five stars: a digit sets it, and the arrows move
/// it by one.
pub proof fn lemma_rating(f: FeedbackView, key: Key)
    requires
        f.wf(),
        !(f.state is Sending),
        !(f.state is Sent),
        f.focus == FbField::Rating,
    ensures
        ({
            let r = f.keyed(key).0.rating;
            &&& r is Some ==> 1 <= r->0 <= 5
            &&& f.rating is Some && key.code == KeyCode::Right ==> r->0 == if f.rating->0 == 5 {
                5
            } else {
                f.rating->0 + 1
            }
            &&& f.rating is Some && key.code == KeyCode::Left ==> r->0 == if f.rating->0 == 1 {
                1
            } else {
                f.rating->0 - 1
            }
            &&& key.code == KeyCode::Char('1') ==> r == Some(1u8)
            &&& key.code == KeyCode::Char('5') ==> r == Some(5u8)
        }),
{
}

/// The rows of the feedback stand one behind the other, from the rating to the
/// button: the next and then the one before is the same row, but for the ends.
pub proof fn lemma_feedback_rows(f: FbField)
    ensures
        f != FbField::Send ==> fb_next(f) != f && fb_prev(fb_next(f)) == f,
        f != FbField::Rating ==> fb_prev(f) != f && fb_next(fb_prev(f)) == f,
        fb_next(FbField::Send) == FbField::Send,
        fb_prev(FbField::Rating) == FbField::Rating,
{
}

/// The driver is removed only by the key for that, and kept only by those for
/// keeping it; while it is removed no key does anything.
pub proof fn lemma_driver_keys(removing: bool, error: Option<Seq<char>>, code: KeyCode)
    ensures
        ({
            let d = pawnio_keyed(removing, error, code);
            let open = !removing && error is None;
            &&& d.action == Some(Action::UninstallPawnio) <==> open && (code == KeyCode::Char('u')
                || code == KeyCode::Char('U'))
            &&& d.action == Some(Action::KeepPawnio) <==> open && (code == KeyCode::Enter || code
                == KeyCode::Char('k') || code == KeyCode::Char('K') || code == KeyCode::Char('q')
                || code == KeyCode::Char('Q'))
            &&& d.quit <==> !removing && error is Some
            &&& removing ==> d.stays == Some(ModalView::Pawnio { removing, error })
        }),
{
}

/// While a test runs, no key on its screen ends the program or starts another;
/// and where the user is asked whether to stop, only "S" does.
pub proof fn lemma_running_keys(a: AppView, code: KeyCode)
    requires
        a.screen == Screen::Running,
    ensures
        a.screen_keyed(code) is Some ==> a.screen_keyed(code) == Some(Action::StopTest),
        global_keyed(Screen::Running, code) != Some(Action::Quit),
        stop_keyed(code).action is Some <==> code == KeyCode::Char('s') || code == KeyCode::Char(
            'S',
        ),
        !stop_keyed(code).quit,
{
}

/// On the results, a key submits only what is ready or may be tried again, opens
/// or copies only what has a page, and starts over only when nothing is under way.
pub proof fn lemma_results_keys(submit: SubmitView, code: KeyCode)
    ensures
        ({
            let k = results_keyed(submit, code);
            &&& k == Some(Action::Submit) ==> submit is Ready || (submit is Failed && submit->retry)
            &&& k == Some(Action::OpenResults) || k == Some(Action::CopyLink) ==> submit is Done
            &&& k == Some(Action::EditDetails) ==> submit is Failed
            &&& k == Some(Action::RunAgain) && code != KeyCode::Enter ==> !(submit is Ready)
                && !(submit is Sending)
        }),
{
}

/// The list of languages is moved in by one and never left at its ends, and the
/// one under the cursor is taken.
pub proof fn lemma_language_keys(cursor: usize, code: KeyCode)
    requires
        cursor < 9,
    ensures
        ({
            let d = language_keyed(cursor as int, code);
            &&& d.stays is Some ==> d.stays->0 is Language && 0 <= d.stays->0->cursor < 9 && -1
                <= d.stays->0->cursor - cursor <= 1
            &&& code == KeyCode::Enter ==> d.stays is None && d.action == Some(
                Action::SetLanguage(cursor),
            )
            &&& code == KeyCode::Down && cursor < 8 ==> d.stays->0->cursor == cursor + 1
            &&& code == KeyCode::Up && cursor > 0 ==> d.stays->0->cursor == cursor - 1
            &&& code != KeyCode::Enter ==> d.action is None
        }),
{
}

} // verus!
