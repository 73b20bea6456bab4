//! The buttons of each screen and dialog, and what a click does.
use vstd::prelude::*;

use crate::app::{
    effect_views, Action, App, AppView, DiagStage, Effect, EffectView, FbField, FbState,
    FbStateView, Modal, ModalView, Screen, StageView, SubmitState, SubmitView,
};
use crate::form::{row_of, Field};
use crate::input::{Key, KeyCode};
use crate::layout::Rect;
use crate::text::owned;

verus! {

/// The key that a button shows.
#[derive(Debug, Clone, Copy, PartialEq, Eq, Structural)]
pub enum Press {
    Enter,
    Esc,
    Letter(char),
}

impl Press {
    /// The key that is pressed.
    pub open spec fn code(self) -> KeyCode {
        match self {
            Press::Enter => KeyCode::Enter,
            Press::Esc => KeyCode::Esc,
            Press::Letter(c) => KeyCode::Char(c),
        }
    }

    /// The key's name.
    pub open spec fn label(self) -> Seq<char> {
        match self {
            Press::Enter => "Enter"@,
            Press::Esc => "Esc"@,
            Press::Letter(c) => seq![c],
        }
    }

    /// The key's name.
    pub fn name(self) -> (r: String)
        ensures
            r@ == self.label(),
    {
        match self {
            Press::Enter => owned("Enter"),
            Press::Esc => owned("Esc"),
            Press::Letter(c) => {
                let mut s = String::new();
                s.push(c);
                assert(s@ =~= seq![c]);
                s
            },
        }
    }
}

/// What a button says.
#[derive(Debug, Clone, Copy, PartialEq, Eq, Structural)]
pub enum Label {
    Continue,
    Diagnostics,
    Back,
    Start,
    OpenResult,
    Copy,
    Again,
    Quit,
    Retry,
    Edit,
    StartDiagnostics,
    OpenLog,
    Close,
    KeepRunning,
    StopNow,
    Save,
    Cancel,
    Keep,
    Uninstall,
    Send,
    Stop,
    Feedback,
    Support,
    Language,
    Help,
    QuitKey,
}

/// A button.
#[derive(Debug, Clone, Copy, PartialEq, Eq, Structural)]
pub struct Button {
    pub key: Press,
    pub label: Label,
    pub action: Action,
    /// The one that is most likely wanted.
    pub primary: bool,
}

/// A button that is most likely wanted.
pub open spec fn first(key: Press, label: Label, action: Action) -> Button {
    Button { key, label, action, primary: true }
}

/// Another button.
pub open spec fn other(key: Press, label: Label, action: Action) -> Button {
    Button { key, label, action, primary: false }
}

fn first_button(key: Press, label: Label, action: Action) -> (r: Button)
    ensures
        r == first(key, label, action),
{
    Button { key, label, action, primary: true }
}

fn other_button(key: Press, label: Label, action: Action) -> (r: Button)
    ensures
        r == other(key, label, action),
{
    Button { key, label, action, primary: false }
}

// ---------------------------------------------------------------------------
// Screens

/// The buttons below a result.
pub open spec fn results_row(s: SubmitView) -> Seq<Button> {
    let again = other(Press::Letter('R'), Label::Again, Action::RunAgain);
    let quit = other(Press::Letter('Q'), Label::Quit, Action::Quit);
    match s {
        SubmitView::Ready | SubmitView::Sending => Seq::empty(),
        SubmitView::Done { .. } => seq![
            first(Press::Enter, Label::OpenResult, Action::OpenResults),
            other(Press::Letter('C'), Label::Copy, Action::CopyLink),
            again,
            quit,
        ],
        SubmitView::Failed { retry, .. } => if retry {
            seq![
                first(Press::Enter, Label::Retry, Action::Submit),
                other(Press::Letter('E'), Label::Edit, Action::EditDetails),
                again,
                quit,
            ]
        } else {
            seq![Button { primary: true, ..again }, quit]
        },
        SubmitView::Blocked(_) => seq![
            first(Press::Enter, Label::Again, Action::RunAgain),
            quit,
        ],
    }
}

/// The buttons below a result.
pub fn results_buttons(s: &SubmitState) -> (r: Vec<Button>)
    ensures
        r@ == results_row(s@),
{
    let again = other_button(Press::Letter('R'), Label::Again, Action::RunAgain);
    let quit = other_button(Press::Letter('Q'), Label::Quit, Action::Quit);
    let mut r: Vec<Button> = Vec::new();
    match s {
        SubmitState::Ready => {},
        SubmitState::Sending => {},
        SubmitState::Done { url: _ } => {
            r.push(first_button(Press::Enter, Label::OpenResult, Action::OpenResults));
            r.push(other_button(Press::Letter('C'), Label::Copy, Action::CopyLink));
            r.push(again);
            r.push(quit);
        },
        SubmitState::Failed { reason: _, retry } => {
            if *retry {
                r.push(first_button(Press::Enter, Label::Retry, Action::Submit));
                r.push(other_button(Press::Letter('E'), Label::Edit, Action::EditDetails));
                r.push(again);
            } else {
                r.push(first_button(Press::Letter('R'), Label::Again, Action::RunAgain));
            }
            r.push(quit);
        },
        SubmitState::Blocked(_) => {
            r.push(first_button(Press::Enter, Label::Again, Action::RunAgain));
            r.push(quit);
        },
    }
    assert(r@ =~= results_row(s@));
    r
}

/// The buttons below the diagnostics.
pub open spec fn diagnostics_row(s: StageView) -> Seq<Button> {
    match s {
        StageView::Intro => seq![
            first(Press::Enter, Label::StartDiagnostics, Action::StartDiagnostics),
            other(Press::Esc, Label::Back, Action::Back),
        ],
        StageView::Done { .. } => seq![
            first(Press::Enter, Label::OpenLog, Action::OpenResults),
            other(Press::Letter('C'), Label::Copy, Action::CopyLink),
            other(Press::Esc, Label::Back, Action::Back),
        ],
        StageView::Failed(_) => seq![first(Press::Esc, Label::Back, Action::Back)],
        _ => Seq::empty(),
    }
}

/// The buttons below the diagnostics.
pub fn diagnostics_buttons(s: &DiagStage) -> (r: Vec<Button>)
    ensures
        r@ == diagnostics_row(s@),
{
    let back = other_button(Press::Esc, Label::Back, Action::Back);
    let mut r: Vec<Button> = Vec::new();
    match s {
        DiagStage::Intro => {
            r.push(
                first_button(Press::Enter, Label::StartDiagnostics, Action::StartDiagnostics),
            );
            r.push(back);
        },
        DiagStage::Done { url: _ } => {
            r.push(first_button(Press::Enter, Label::OpenLog, Action::OpenResults));
            r.push(other_button(Press::Letter('C'), Label::Copy, Action::CopyLink));
            r.push(back);
        },
        DiagStage::Failed(_) => {
            r.push(first_button(Press::Esc, Label::Back, Action::Back));
        },
        DiagStage::Collecting => {},
        DiagStage::Stress => {},
        DiagStage::Uploading => {},
    }
    assert(r@ =~= diagnostics_row(s@));
    r
}

/// The buttons of the screen.
pub open spec fn screen_row(a: AppView) -> Seq<Button> {
    match a.screen {
        Screen::Home => if a.sensing {
            seq![
                first(Press::Enter, Label::Continue, Action::Continue),
                other(Press::Letter('D'), Label::Diagnostics, Action::Diagnostics),
            ]
        } else {
            Seq::empty()
        },
        Screen::Options => seq![
            first(Press::Enter, Label::Continue, Action::Continue),
            other(Press::Esc, Label::Back, Action::Back),
        ],
        Screen::Confirm => seq![
            first(Press::Enter, Label::Start, Action::StartTest),
            other(Press::Esc, Label::Back, Action::Back),
        ],
        Screen::Results => match a.results {
            Some(r) => results_row(r.submit),
            None => Seq::empty(),
        },
        Screen::Diagnostics => match a.diag {
            Some(d) => diagnostics_row(d.stage),
            None => Seq::empty(),
        },
        Screen::Boot | Screen::Running => Seq::empty(),
    }
}

/// The buttons of the screen.
pub fn screen_buttons(app: &App) -> (r: Vec<Button>)
    ensures
        r@ == screen_row(app@),
{
    let back = other_button(Press::Esc, Label::Back, Action::Back);
    let mut r: Vec<Button> = Vec::new();
    match app.screen {
        Screen::Home => {
            if app.sensing {
                r.push(first_button(Press::Enter, Label::Continue, Action::Continue));
                r.push(
                    other_button(Press::Letter('D'), Label::Diagnostics, Action::Diagnostics),
                );
            }
        },
        Screen::Options => {
            r.push(first_button(Press::Enter, Label::Continue, Action::Continue));
            r.push(back);
        },
        Screen::Confirm => {
            r.push(first_button(Press::Enter, Label::Start, Action::StartTest));
            r.push(back);
        },
        Screen::Results => {
            if let Some(res) = &app.results {
                return results_buttons(&res.submit);
            }
        },
        Screen::Diagnostics => {
            if let Some(d) = &app.diag {
                return diagnostics_buttons(&d.stage);
            }
        },
        Screen::Boot => {},
        Screen::Running => {},
    }
    assert(r@ =~= screen_row(app@));
    r
}

/// The buttons in the last line.
pub open spec fn footer_row(screen: Screen) -> Seq<Button> {
    let common = seq![
        other(Press::Letter('F'), Label::Feedback, Action::Feedback),
        other(Press::Letter('S'), Label::Support, Action::Support),
        other(Press::Letter('L'), Label::Language, Action::Language),
        other(Press::Letter('?'), Label::Help, Action::Help),
    ];
    if screen == Screen::Boot {
        Seq::empty()
    } else if screen == Screen::Running {
        seq![other(Press::Esc, Label::Stop, Action::StopTest)] + common
    } else {
        common.push(other(Press::Letter('Q'), Label::QuitKey, Action::Quit))
    }
}

/// The buttons in the last line.
pub fn footer_buttons(screen: Screen) -> (r: Vec<Button>)
    ensures
        r@ == footer_row(screen),
{
    let mut r: Vec<Button> = Vec::new();
    if screen == Screen::Boot {
        return r;
    }
    if screen == Screen::Running {
        r.push(other_button(Press::Esc, Label::Stop, Action::StopTest));
    }
    r.push(other_button(Press::Letter('F'), Label::Feedback, Action::Feedback));
    r.push(other_button(Press::Letter('S'), Label::Support, Action::Support));
    r.push(other_button(Press::Letter('L'), Label::Language, Action::Language));
    r.push(other_button(Press::Letter('?'), Label::Help, Action::Help));
    if screen != Screen::Running {
        r.push(other_button(Press::Letter('Q'), Label::QuitKey, Action::Quit));
    }
    assert(r@ =~= footer_row(screen));
    r
}

// ---------------------------------------------------------------------------
// Dialogs

/// The buttons of the feedback form.
pub open spec fn feedback_row(s: FbStateView) -> Seq<Button> {
    match s {
        FbStateView::Sent => seq![first(Press::Enter, Label::Close, Action::CloseModal)],
        FbStateView::Failed(_) => seq![first(Press::Esc, Label::Close, Action::CloseModal)],
        FbStateView::Sending => Seq::empty(),
        FbStateView::Editing => seq![
            first(Press::Enter, Label::Send, Action::FbSend),
            other(Press::Esc, Label::Cancel, Action::CloseModal),
        ],
    }
}

/// The buttons of a dialog.
pub open spec fn dialog_row(m: ModalView) -> Seq<Button> {
    match m {
        ModalView::Help => seq![first(Press::Esc, Label::Close, Action::CloseModal)],
        ModalView::Language { .. } => seq![other(Press::Esc, Label::Close, Action::CloseModal)],
        ModalView::StopTest => seq![
            first(Press::Enter, Label::KeepRunning, Action::KeepRunning),
            other(Press::Letter('S'), Label::StopNow, Action::ConfirmStop),
        ],
        ModalView::EditDetails(_) => seq![
            first(Press::Enter, Label::Save, Action::SaveDetails),
            other(Press::Esc, Label::Cancel, Action::CloseModal),
        ],
        ModalView::Feedback(f) => feedback_row(f.state),
        ModalView::Pawnio { removing, error } => if removing {
            Seq::empty()
        } else if error is Some {
            seq![first(Press::Enter, Label::Close, Action::KeepPawnio)]
        } else {
            seq![
                first(Press::Letter('K'), Label::Keep, Action::KeepPawnio),
                other(Press::Letter('U'), Label::Uninstall, Action::UninstallPawnio),
            ]
        },
    }
}

fn feedback_buttons(s: &FbState) -> (r: Vec<Button>)
    ensures
        r@ == feedback_row(s@),
{
    let mut r: Vec<Button> = Vec::new();
    match s {
        FbState::Sent => {
            r.push(first_button(Press::Enter, Label::Close, Action::CloseModal));
        },
        FbState::Failed(_) => {
            r.push(first_button(Press::Esc, Label::Close, Action::CloseModal));
        },
        FbState::Sending => {},
        FbState::Editing => {
            r.push(first_button(Press::Enter, Label::Send, Action::FbSend));
            r.push(other_button(Press::Esc, Label::Cancel, Action::CloseModal));
        },
    }
    assert(r@ =~= feedback_row(s@));
    r
}

/// The buttons of a dialog.
pub fn dialog_buttons(m: &Modal) -> (r: Vec<Button>)
    ensures
        r@ == dialog_row(m@),
{
    let mut r: Vec<Button> = Vec::new();
    match m {
        Modal::Help => {
            r.push(first_button(Press::Esc, Label::Close, Action::CloseModal));
        },
        Modal::Language { cursor: _ } => {
            r.push(other_button(Press::Esc, Label::Close, Action::CloseModal));
        },
        Modal::StopTest => {
            r.push(first_button(Press::Enter, Label::KeepRunning, Action::KeepRunning));
            r.push(other_button(Press::Letter('S'), Label::StopNow, Action::ConfirmStop));
        },
        Modal::EditDetails(_) => {
            r.push(first_button(Press::Enter, Label::Save, Action::SaveDetails));
            r.push(other_button(Press::Esc, Label::Cancel, Action::CloseModal));
        },
        Modal::Feedback(f) => {
            return feedback_buttons(&f.state);
        },
        Modal::Pawnio { removing, error } => {
            if *removing {
            } else if error.is_some() {
                r.push(first_button(Press::Enter, Label::Close, Action::KeepPawnio));
            } else {
                r.push(first_button(Press::Letter('K'), Label::Keep, Action::KeepPawnio));
                r.push(
                    other_button(Press::Letter('U'), Label::Uninstall, Action::UninstallPawnio),
                );
            }
        },
    }
    assert(r@ =~= dialog_row(m@));
    r
}

// ---------------------------------------------------------------------------
// Clicks

/// What is under a point: the last of the first `n` places that holds it, as
/// what is drawn later lies on top.
pub open spec fn under(hits: Seq<(Rect, Action)>, x: u16, y: u16, n: int) -> Option<Action>
    decreases n,
{
    if n <= 0 {
        None
    } else if hits[n - 1].0.holds(x, y) {
        Some(hits[n - 1].1)
    } else {
        under(hits, x, y, n - 1)
    }
}

/// A click hits the last thing drawn at its place, and nothing where nothing is.
pub proof fn lemma_topmost_is_hit(hits: Seq<(Rect, Action)>, x: u16, y: u16, n: int)
    requires
        0 <= n <= hits.len(),
    ensures
        match under(hits, x, y, n) {
            Some(a) => exists|i: int|
                0 <= i < n && (#[trigger] hits[i]).0.holds(x, y) && hits[i].1 == a && forall|j: int|
                    i < j < n ==> !(#[trigger] hits[j]).0.holds(x, y),
            None => forall|i: int| 0 <= i < n ==> !(#[trigger] hits[i]).0.holds(x, y),
        },
    decreases n,
{
    if n > 0 {
        if hits[n - 1].0.holds(x, y) {
            assert(hits[n - 1].1 == under(hits, x, y, n)->0);
        } else {
            lemma_topmost_is_hit(hits, x, y, n - 1);
        }
    }
}

/// Finds what is under a point.
pub fn find_hit(hits: &Vec<(Rect, Action)>, x: u16, y: u16) -> (r: Option<Action>)
    ensures
        r == under(hits@, x, y, hits@.len() as int),
        r is Some ==> exists|i: int| 0 <= i < hits@.len() && (#[trigger] hits@[i]).1 == r->0,
{
    let mut n: usize = hits.len();
    while n > 0
        invariant
            n <= hits.len(),
            under(hits@, x, y, hits@.len() as int) == under(hits@, x, y, n as int),
        decreases n,
    {
        if hits[n - 1].0.contains(x, y) {
            assert(hits@[n - 1].1 == hits@[n - 1].1);
            return Some(hits[n - 1].1);
        }
        n = n - 1;
    }
    None
}

/// What the mouse does.
#[derive(Debug, Clone, Copy, PartialEq, Eq, Structural)]
pub enum Mouse {
    /// The left button goes down.
    Down { x: u16, y: u16 },
    WheelUp,
    WheelDown,
    Other,
}

impl AppView {
    /// After something that the mouse does.
    pub open spec fn moused(self, hits: Seq<(Rect, Action)>, mouse: Mouse) -> (
        AppView,
        Seq<EffectView>,
    ) {
        match mouse {
            Mouse::Down { x, y } => self.acted_if(under(hits, x, y, hits.len() as int)),
            Mouse::WheelUp => (self.wheeled(true), Seq::empty()),
            Mouse::WheelDown => (self.wheeled(false), Seq::empty()),
            Mouse::Other => (self, Seq::empty()),
        }
    }
}

impl App {
    /// Does what the mouse asks for, given the places that react to it.
    pub fn on_mouse(&mut self, hits: &Vec<(Rect, Action)>, mouse: Mouse) -> (r: Vec<Effect>)
        requires
            old(self)@.wf(),
            forall|i: int| 0 <= i < hits@.len() ==> (#[trigger] hits@[i]).1.wf(),
        ensures
            (final(self)@, effect_views(r@)) == old(self)@.moused(hits@, mouse),
            final(self)@.wf(),
    {
        match mouse {
            Mouse::Down { x, y } => {
                if let Some(action) = find_hit(hits, x, y) {
                    return self.act(action);
                }
            },
            Mouse::WheelUp => {
                self.on_wheel(true);
            },
            Mouse::WheelDown => {
                self.on_wheel(false);
            },
            Mouse::Other => {},
        }
        let none: Vec<Effect> = Vec::new();
        assert(effect_views(none@) =~= Seq::<EffectView>::empty());
        none
    }
}

// ---------------------------------------------------------------------------
// Keys and clicks agree

/// The key press that a button shows.
pub open spec fn shown_key(b: Button) -> Key {
    Key { code: b.key.code(), ctrl: false }
}

/// Below a result that could not be sent but may be sent again: there the key
/// "R" sends it again, while the button starts another test.
pub open spec fn may_be_resent(a: AppView) -> bool {
    a.screen == Screen::Results && a.results is Some && a.results->0.submit is Failed
        && a.results->0.submit->retry
}

/// On a screen a button's key does what a click on it does.
pub proof fn lemma_keys_are_clicks(a: AppView, i: int)
    requires
        a.modal is None,
        a.wf(),
        a.diag is Some ==> 0 <= a.diag->0.scroll <= usize::MAX,
        0 <= i < screen_row(a).len(),
        !(may_be_resent(a) && screen_row(a)[i].key == Press::Letter('R')),
        a.screen == Screen::Options ==> a.form.rows(
            a.laptop(),
            a.cards().len() as int,
            false,
        ).contains(a.form.focus),
    ensures
        a.keyed(shown_key(screen_row(a)[i])) == a.acted(screen_row(a)[i].action),
{
    let b = screen_row(a)[i];
    let key = shown_key(b);
    if a.diag is Some {
        assert(a.scrolled(key.code) =~= a);
    }
    if a.screen == Screen::Options {
        let rows = a.form.rows(a.laptop(), a.cards().len() as int, false);
        lemma_row_found(rows, a.form.focus, 0);
        assert(a.options_keyed(key).0 =~= a);
    }
}

proof fn lemma_row_found(rows: Seq<Field>, field: Field, i: int)
    requires
        exists|j: int| i <= j < rows.len() && rows[j] == field,
        0 <= i,
    ensures
        i <= row_of(rows, field, i) < rows.len(),
        rows[row_of(rows, field, i)] == field,
    decreases rows.len() - i,
{
    if rows[i] != field {
        lemma_row_found(rows, field, i + 1);
    }
}

/// Where nothing is being typed, the keys in the last line do what a click on
/// them does.
pub proof fn lemma_footer_keys_are_clicks(a: AppView, i: int)
    requires
        a.modal is None,
        a.screen != Screen::Options,
        a.diag is Some ==> 0 <= a.diag->0.scroll <= usize::MAX,
        0 <= i < footer_row(a.screen).len(),
    ensures
        a.keyed(shown_key(footer_row(a.screen)[i])) == a.acted(footer_row(a.screen)[i].action),
{
    let b = footer_row(a.screen)[i];
    let key = shown_key(b);
    if a.diag is Some {
        assert(a.scrolled(key.code) =~= a);
    }
}

/// In a dialog a button's key does what a click on it does, once the user has
/// come to the end of the feedback form, where Enter sends it.  Removing the
/// driver fails only after the user has decided to.
pub proof fn lemma_dialog_keys_are_clicks(a: AppView, i: int)
    requires
        a.modal is Some,
        a.wf(),
        0 <= i < dialog_row(a.modal->0).len(),
        a.modal->0 is Feedback && dialog_row(a.modal->0)[i].action == Action::FbSend
            ==> a.modal->0->Feedback_0.focus == FbField::Send,
        a.modal->0 is Pawnio && a.modal->0->error is Some ==> a.pawnio_decided,
    ensures
        a.keyed(shown_key(dialog_row(a.modal->0)[i])) == a.acted(dialog_row(a.modal->0)[i].action),
{
    let b = dialog_row(a.modal->0)[i];
}

} // verus!
