//! What the terminal shows for each event of the pipeline.
//!
//! [`RenderState`] takes the events one by one and says what is to be done
//! on the terminal for each.
use crate::duration::Duration;
use crate::progress::event::{MutantDisplay, RenderEvent, SummaryInfo};
use crate::progress::reporter::RenderMode;
use crate::progress::style;
use crate::text::{lemma_shows, shows};
use vstd::prelude::*;

verus! {

/// Something to be done on the terminal.
#[derive(Debug, PartialEq, Eq)]
pub enum RenderAction {
    /// Write a line.
    WriteLine(String),
    /// Show a spinner with a label.
    StartSpinner(String),
    /// Remove the spinner.
    ClearSpinner,
    /// Show a progress bar with a length.
    StartBar(u64),
    /// Move the progress bar on by one.
    AdvanceBar,
    /// Remove the progress bar.
    ClearBar,
    /// Leave the progress bar as it stands, with a message.
    AbandonBar(String),
}

/// An action as a mathematical value.
pub enum ActionView {
    WriteLine(Seq<char>),
    StartSpinner(Seq<char>),
    ClearSpinner,
    StartBar(u64),
    AdvanceBar,
    ClearBar,
    AbandonBar(Seq<char>),
}

impl View for RenderAction {
    type V = ActionView;

    open spec fn view(&self) -> ActionView {
        match *self {
            RenderAction::WriteLine(line) => ActionView::WriteLine(line@),
            RenderAction::StartSpinner(label) => ActionView::StartSpinner(label@),
            RenderAction::ClearSpinner => ActionView::ClearSpinner,
            RenderAction::StartBar(total) => ActionView::StartBar(total),
            RenderAction::AdvanceBar => ActionView::AdvanceBar,
            RenderAction::ClearBar => ActionView::ClearBar,
            RenderAction::AbandonBar(message) => ActionView::AbandonBar(message@),
        }
    }
}

/// Actions as mathematical values.
pub open spec fn actions(list: Seq<RenderAction>) -> Seq<ActionView> {
    list.map_values(|action: RenderAction| action@)
}

/// What is shown at the moment, and how.
#[derive(Debug, Clone, Copy, PartialEq, Eq, Structural)]
pub struct RenderState {
    /// Active render mode.
    pub mode: RenderMode,
    /// Whether stderr is a terminal.
    pub is_terminal: bool,
    /// Whether a spinner is shown.
    pub spinner: bool,
    /// Whether a progress bar is shown.
    pub bar: bool,
}

/// The line for a completed phase.
pub open spec fn phase_line(
    detail: Seq<char>,
    count_detail: Option<Seq<char>>,
    elapsed: Duration,
    colored: bool,
) -> Seq<char> {
    let count = match count_detail {
        Some(text) => " ("@ + text + ")"@,
        None => ""@,
    };
    let timing = style::duration_text(elapsed);
    if colored {
        "  "@ + style::styled("✔"@, "green.bold"@) + " "@ + detail + count + "  "@ + style::styled(
            timing,
            "dim"@,
        )
    } else {
        "  "@ + detail + count + "  "@ + timing
    }
}

/// The line for a warning.
pub open spec fn warning_line(message: Seq<char>, colored: bool) -> Seq<char> {
    if colored {
        "  "@ + style::styled("⚠"@, "yellow.bold"@) + " "@ + message
    } else {
        "  warning: "@ + message
    }
}

/// An optional text as a mathematical value.
pub open spec fn optional_text(text: Option<String>) -> Option<Seq<char>> {
    match text {
        Some(s) => Some(s@),
        None => None,
    }
}

impl RenderState {
    /// Whether a spinner can be shown: fancy output on a terminal.
    pub open spec fn overwrites(self) -> bool {
        self.is_terminal && self.mode is Fancy
    }

    /// What is shown at the beginning: a banner and an empty line, unless
    /// output is suppressed.
    pub open spec fn opening(self) -> Seq<ActionView> {
        if self.mode is Quiet {
            Seq::empty()
        } else {
            seq![
                ActionView::WriteLine(style::banner(self.mode.colors())),
                ActionView::WriteLine(""@),
            ]
        }
    }

    /// The state after an event.
    pub open spec fn after(self, event: RenderEvent) -> RenderState {
        match event {
            RenderEvent::PhaseStart { .. } => RenderState {
                spinner: self.spinner || self.overwrites(),
                ..self
            },
            RenderEvent::PhaseComplete { .. } => RenderState {
                spinner: self.spinner && self.mode is Quiet,
                ..self
            },
            RenderEvent::MutantsStart { .. } => if self.mode is Fancy && self.is_terminal {
                RenderState { spinner: false, bar: true, ..self }
            } else {
                self
            },
            RenderEvent::MutantsFinish { .. } => RenderState { bar: false, ..self },
            _ => self,
        }
    }

    /// What is done for an event.
    ///
    /// Nothing is written in quiet mode. Spinners and the progress bar need a
    /// terminal and the fancy mode, and lines for single mutants the verbose
    /// mode.
    pub open spec fn reaction(self, event: RenderEvent) -> Seq<ActionView> {
        match event {
            RenderEvent::PhaseStart { label } => if self.overwrites() {
                seq![ActionView::StartSpinner(label@)]
            } else {
                Seq::empty()
            },
            RenderEvent::PhaseComplete { detail, count_detail, elapsed } => if self.mode is Quiet {
                Seq::empty()
            } else {
                let line = ActionView::WriteLine(
                    phase_line(
                        detail@,
                        optional_text(count_detail),
                        elapsed,
                        self.mode.colors(),
                    ),
                );
                if self.spinner {
                    seq![ActionView::ClearSpinner, line]
                } else {
                    seq![line]
                }
            },
            RenderEvent::MutantsStart { total } => if self.mode is Fancy && self.is_terminal {
                if self.spinner {
                    seq![ActionView::ClearSpinner, ActionView::StartBar(total)]
                } else {
                    seq![ActionView::StartBar(total)]
                }
            } else {
                Seq::empty()
            },
            RenderEvent::MutantCompleted { index, total, summary } => if self.mode is Fancy
                && self.bar {
                seq![ActionView::AdvanceBar]
            } else if self.mode is Verbose {
                seq![
                    ActionView::WriteLine(
                        style::colored_mutant_line(index as int, total as int, summary),
                    ),
                ]
            } else {
                Seq::empty()
            },
            RenderEvent::MutantsFinish { cancelled } => if self.bar {
                if cancelled {
                    seq![ActionView::AbandonBar("cancelled"@)]
                } else {
                    seq![ActionView::ClearBar]
                }
            } else {
                Seq::empty()
            },
            RenderEvent::Warning { message } => if self.mode is Quiet {
                Seq::empty()
            } else {
                seq![ActionView::WriteLine(warning_line(message@, self.mode.colors()))]
            },
            RenderEvent::FinalSummary(info) => if self.mode is Quiet {
                Seq::empty()
            } else {
                seq![
                    ActionView::WriteLine(""@),
                    ActionView::WriteLine(style::summary_line(info, self.mode.colors())),
                ]
            },
            RenderEvent::Shutdown => Seq::empty(),
        }
    }

    /// Create a new render state for the given mode.
    pub fn new(mode: RenderMode, is_terminal: bool) -> (r: RenderState)
        ensures
            r == (RenderState { mode, is_terminal, spinner: false, bar: false }),
    {
        RenderState { mode, is_terminal, spinner: false, bar: false }
    }

    /// The startup banner.
    pub fn write_banner(&self) -> (r: Vec<RenderAction>)
        ensures
            actions(r@) == self.opening(),
    {
        let mut out: Vec<RenderAction> = Vec::new();
        if !matches!(self.mode, RenderMode::Quiet) {
            out.push(RenderAction::WriteLine(style::format_banner(self.mode.is_colored())));
            out.push(RenderAction::WriteLine("".to_owned()));
        }
        assert(actions(out@) =~= self.opening());
        out
    }

    /// Take an event: what is to be done for it.
    pub fn handle_event(&mut self, event: &RenderEvent) -> (r: Vec<RenderAction>)
        requires
            event matches RenderEvent::MutantCompleted { index, .. } ==> index < usize::MAX,
        ensures
            *final(self) == old(self).after(*event),
            actions(r@) == old(self).reaction(*event),
    {
        match event {
            RenderEvent::PhaseStart { label } => self.on_phase_start(label),
            RenderEvent::PhaseComplete { detail, count_detail, elapsed } => self.on_phase_complete(
                detail,
                count_detail,
                *elapsed,
            ),
            RenderEvent::MutantsStart { total } => self.on_mutants_start(*total),
            RenderEvent::MutantCompleted { index, total, summary } => self.on_mutant_completed(
                *index,
                *total,
                summary,
            ),
            RenderEvent::MutantsFinish { cancelled } => self.on_mutants_finish(*cancelled),
            RenderEvent::Warning { message } => self.on_warning(message),
            RenderEvent::FinalSummary(info) => self.on_summary(info),
            RenderEvent::Shutdown => {
                let out: Vec<RenderAction> = Vec::new();
                assert(actions(out@) =~= Seq::empty());
                out
            },
        }
    }

    /// Handle a phase-start event.
    fn on_phase_start(&mut self, label: &String) -> (r: Vec<RenderAction>)
        ensures
            *final(self) == (RenderState {
                spinner: old(self).spinner || old(self).overwrites(),
                ..*old(self)
            }),
            actions(r@) == if old(self).overwrites() {
                seq![ActionView::StartSpinner(label@)]
            } else {
                Seq::empty()
            },
    {
        let mut out: Vec<RenderAction> = Vec::new();
        if self.is_terminal && matches!(self.mode, RenderMode::Fancy) {
            self.spinner = true;
            out.push(RenderAction::StartSpinner(label.clone()));
        }
        assert(actions(out@) =~= if old(self).overwrites() {
            seq![ActionView::StartSpinner(label@)]
        } else {
            Seq::empty()
        });
        out
    }

    /// Handle a phase-complete event.
    fn on_phase_complete(
        &mut self,
        detail: &String,
        count_detail: &Option<String>,
        elapsed: Duration,
    ) -> (r: Vec<RenderAction>)
        ensures
            *final(self) == (RenderState {
                spinner: old(self).spinner && old(self).mode is Quiet,
                ..*old(self)
            }),
            actions(r@) == if old(self).mode is Quiet {
                Seq::empty()
            } else {
                let line = ActionView::WriteLine(
                    phase_line(
                        detail@,
                        optional_text(*count_detail),
                        elapsed,
                        old(self).mode.colors(),
                    ),
                );
                if old(self).spinner {
                    seq![ActionView::ClearSpinner, line]
                } else {
                    seq![line]
                }
            },
    {
        let mut out: Vec<RenderAction> = Vec::new();
        if matches!(self.mode, RenderMode::Quiet) {
            assert(actions(out@) =~= Seq::empty());
            return out;
        }
        if self.spinner {
            self.spinner = false;
            out.push(RenderAction::ClearSpinner);
        }
        let timing: String = style::format_duration(elapsed);
        let mut count: String = "".to_owned();
        if let Some(text) = count_detail {
            count = " (".to_owned();
            count.append(text.as_str());
            count.append(")");
        }
        let mut line: String = "  ".to_owned();
        if self.mode.is_colored() {
            line.append(style::paint("✔", "green.bold").as_str());
            line.append(" ");
        }
        line.append(detail.as_str());
        line.append(count.as_str());
        line.append("  ");
        if self.mode.is_colored() {
            line.append(style::paint(timing.as_str(), "dim").as_str());
        } else {
            line.append(timing.as_str());
        }
        out.push(RenderAction::WriteLine(line));
        assert(actions(out@) =~= if old(self).spinner {
            seq![ActionView::ClearSpinner, ActionView::WriteLine(line@)]
        } else {
            seq![ActionView::WriteLine(line@)]
        });
        out
    }

    /// Handle a mutants-start event: show the progress bar.
    fn on_mutants_start(&mut self, total: u64) -> (r: Vec<RenderAction>)
        ensures
            *final(self) == if old(self).mode is Fancy && old(self).is_terminal {
                RenderState { spinner: false, bar: true, ..*old(self) }
            } else {
                *old(self)
            },
            actions(r@) == if old(self).mode is Fancy && old(self).is_terminal {
                if old(self).spinner {
                    seq![ActionView::ClearSpinner, ActionView::StartBar(total)]
                } else {
                    seq![ActionView::StartBar(total)]
                }
            } else {
                Seq::empty()
            },
    {
        let mut out: Vec<RenderAction> = Vec::new();
        if !matches!(self.mode, RenderMode::Fancy) || !self.is_terminal {
            assert(actions(out@) =~= Seq::empty());
            return out;
        }
        if self.spinner {
            self.spinner = false;
            out.push(RenderAction::ClearSpinner);
        }
        self.bar = true;
        out.push(RenderAction::StartBar(total));
        assert(actions(out@) =~= if old(self).spinner {
            seq![ActionView::ClearSpinner, ActionView::StartBar(total)]
        } else {
            seq![ActionView::StartBar(total)]
        });
        out
    }

    /// Handle a single mutant-completed event.
    fn on_mutant_completed(&self, index: usize, total: usize, summary: &MutantDisplay) -> (r: Vec<
        RenderAction,
    >)
        requires
            index < usize::MAX,
        ensures
            actions(r@) == if self.mode is Fancy && self.bar {
                seq![ActionView::AdvanceBar]
            } else if self.mode is Verbose {
                seq![
                    ActionView::WriteLine(
                        style::colored_mutant_line(index as int, total as int, *summary),
                    ),
                ]
            } else {
                Seq::empty()
            },
    {
        let mut out: Vec<RenderAction> = Vec::new();
        match self.mode {
            RenderMode::Fancy => {
                if self.bar {
                    out.push(RenderAction::AdvanceBar);
                }
            },
            RenderMode::Verbose => {
                out.push(
                    RenderAction::WriteLine(
                        style::format_colored_mutant_line(index, total, summary),
                    ),
                );
            },
            RenderMode::Plain | RenderMode::Quiet => {},
        }
        assert(actions(out@) =~= if self.mode is Fancy && self.bar {
            seq![ActionView::AdvanceBar]
        } else if self.mode is Verbose {
            seq![
                ActionView::WriteLine(
                    style::colored_mutant_line(index as int, total as int, *summary),
                ),
            ]
        } else {
            Seq::empty()
        });
        out
    }

    /// Handle the mutants-finish event: take the bar down.
    fn on_mutants_finish(&mut self, cancelled: bool) -> (r: Vec<RenderAction>)
        ensures
            *final(self) == (RenderState { bar: false, ..*old(self) }),
            actions(r@) == if old(self).bar {
                if cancelled {
                    seq![ActionView::AbandonBar("cancelled"@)]
                } else {
                    seq![ActionView::ClearBar]
                }
            } else {
                Seq::empty()
            },
    {
        let mut out: Vec<RenderAction> = Vec::new();
        if self.bar {
            self.bar = false;
            if cancelled {
                out.push(RenderAction::AbandonBar("cancelled".to_owned()));
            } else {
                out.push(RenderAction::ClearBar);
            }
        }
        assert(actions(out@) =~= if old(self).bar {
            if cancelled {
                seq![ActionView::AbandonBar("cancelled"@)]
            } else {
                seq![ActionView::ClearBar]
            }
        } else {
            Seq::empty()
        });
        out
    }

    /// Handle a warning.
    fn on_warning(&self, message: &String) -> (r: Vec<RenderAction>)
        ensures
            actions(r@) == if self.mode is Quiet {
                Seq::empty()
            } else {
                seq![ActionView::WriteLine(warning_line(message@, self.mode.colors()))]
            },
    {
        let mut out: Vec<RenderAction> = Vec::new();
        if !matches!(self.mode, RenderMode::Quiet) {
            let mut line: String = if self.mode.is_colored() {
                let mut start: String = "  ".to_owned();
                start.append(style::paint("⚠", "yellow.bold").as_str());
                start.append(" ");
                start
            } else {
                "  warning: ".to_owned()
            };
            line.append(message.as_str());
            out.push(RenderAction::WriteLine(line));
        }
        assert(actions(out@) =~= if self.mode is Quiet {
            Seq::empty()
        } else {
            seq![ActionView::WriteLine(warning_line(message@, self.mode.colors()))]
        });
        out
    }

    /// Handle the final summary event.
    fn on_summary(&self, info: &SummaryInfo) -> (r: Vec<RenderAction>)
        ensures
            actions(r@) == if self.mode is Quiet {
                Seq::empty()
            } else {
                seq![
                    ActionView::WriteLine(""@),
                    ActionView::WriteLine(style::summary_line(*info, self.mode.colors())),
                ]
            },
    {
        let mut out: Vec<RenderAction> = Vec::new();
        if !matches!(self.mode, RenderMode::Quiet) {
            out.push(RenderAction::WriteLine("".to_owned()));
            out.push(
                RenderAction::WriteLine(style::format_summary_line(info, self.mode.is_colored())),
            );
        }
        assert(actions(out@) =~= if self.mode is Quiet {
            Seq::empty()
        } else {
            seq![
                ActionView::WriteLine(""@),
                ActionView::WriteLine(style::summary_line(*info, self.mode.colors())),
            ]
        });
        out
    }
}

/// In quiet mode nothing is ever shown.
pub proof fn law_quiet_shows_nothing(state: RenderState, event: RenderEvent)
    requires
        state.mode is Quiet,
        !state.bar,
    ensures
        state.opening().len() == 0,
        state.reaction(event).len() == 0,
        state.after(event).mode is Quiet,
        !state.after(event).bar,
{
}

/// The mode stays what it was, and a spinner or a bar is shown by fancy output
/// on a terminal only.
pub proof fn law_animation_needs_a_fancy_terminal(state: RenderState, event: RenderEvent)
    requires
        state.spinner || state.bar ==> state.overwrites(),
    ensures
        state.after(event).mode == state.mode,
        state.after(event).is_terminal == state.is_terminal,
        state.after(event).spinner || state.after(event).bar ==> state.overwrites(),
{
}

/// What is drawn is also cleared: a spinner or a bar is cleared by the event
/// after which it is gone, and by no other.
pub proof fn law_what_is_drawn_is_cleared(state: RenderState, event: RenderEvent)
    requires
        state.spinner || state.bar ==> state.overwrites(),
    ensures
        state.reaction(event).contains(ActionView::ClearSpinner) <==> state.spinner && !state.after(
            event,
        ).spinner,
        (exists|i: int|
            0 <= i < state.reaction(event).len() && {
                ||| #[trigger] state.reaction(event)[i] is ClearBar
                ||| state.reaction(event)[i] is AbandonBar
            }) <==> state.bar && !state.after(event).bar,
{
    let list = state.reaction(event);
    if list.len() > 0 {
        assert(list[0] == list[0]);
    }
    if state.spinner && !state.after(event).spinner {
        assert(list[0] is ClearSpinner);
        assert(list.contains(list[0]));
    }
    if state.bar && !state.after(event).bar {
        assert(list[0] is ClearBar || list[0] is AbandonBar);
    }
}

/// On a terminal that is drawn on, a phase gets a spinner with its label, the
/// mutants get a bar with their number, and each mutant moves the bar on.
pub proof fn law_phases_and_mutants_are_drawn(
    state: RenderState,
    label: String,
    total: u64,
    index: usize,
    of: usize,
    summary: MutantDisplay,
)
    requires
        state.overwrites(),
    ensures
        ({
            let phase = RenderEvent::PhaseStart { label };
            let mutants = RenderEvent::MutantsStart { total };
            let mutant = RenderEvent::MutantCompleted { index, total: of, summary };
            &&& state.after(phase).spinner
            &&& state.reaction(phase) == seq![ActionView::StartSpinner(label@)]
            &&& state.after(mutants).bar && !state.after(mutants).spinner
            &&& state.reaction(mutants).last() == ActionView::StartBar(total)
            &&& state.after(mutants).reaction(mutant) == seq![ActionView::AdvanceBar]
            &&& state.after(mutants).after(mutant).bar
        }),
{
}

/// A run that was cancelled leaves its bar on the screen with a word that says
/// so; another clears it.
pub proof fn law_bars_end_with_the_mutants(state: RenderState, cancelled: bool)
    requires
        state.bar,
    ensures
        ({
            let end = RenderEvent::MutantsFinish { cancelled };
            &&& !state.after(end).bar
            &&& cancelled ==> state.reaction(end) == seq![ActionView::AbandonBar("cancelled"@)]
            &&& !cancelled ==> state.reaction(end) == seq![ActionView::ClearBar]
        }),
{
}

/// The line of a phase shows what was done, how much, and how long it took.
pub proof fn law_phase_lines_show_what_was_done(
    detail: Seq<char>,
    count: Seq<char>,
    elapsed: Duration,
    colored: bool,
)
    ensures
        shows(phase_line(detail, Some(count), elapsed, colored), detail + " ("@ + count + ")  "@),
        shows(phase_line(detail, None, elapsed, colored), detail + "  "@),
        shows(phase_line(detail, Some(count), elapsed, colored), style::duration_text(elapsed)),
        shows(phase_line(detail, None, elapsed, colored), style::duration_text(elapsed)),
{
    reveal_strlit("");
    reveal_strlit(")");
    reveal_strlit("  ");
    reveal_strlit(")  ");
    assert(")"@ + "  "@ =~= ")  "@);
    let start = if colored {
        "  "@ + style::styled("✔"@, "green.bold"@) + " "@
    } else {
        "  "@
    };
    let time = style::duration_text(elapsed);
    let end = if colored {
        style::styled(time, "dim"@)
    } else {
        time
    };
    let with = phase_line(detail, Some(count), elapsed, colored);
    let without = phase_line(detail, None, elapsed, colored);
    let full = detail + " ("@ + count + ")  "@;
    lemma_shows(with, start, full, end);
    assert(without =~= start + (detail + "  "@) + end);
    lemma_shows(without, start, detail + "  "@, end);
    if colored {
        let code = style::style_codes("dim"@);
        lemma_shows(with, start + full + code, time, "\x1b[0m"@);
        lemma_shows(without, start + (detail + "  "@) + code, time, "\x1b[0m"@);
    } else {
        lemma_shows(with, start + full, time, Seq::empty());
        lemma_shows(without, start + (detail + "  "@), time, Seq::empty());
    }
}

/// Unless it is quiet, a phase that is done, a warning and the summary are each
/// written on a line, and on verbose output so is every mutant.
pub proof fn law_events_are_written(
    state: RenderState,
    detail: String,
    count: Option<String>,
    elapsed: Duration,
    message: String,
    info: SummaryInfo,
)
    requires
        !(state.mode is Quiet),
    ensures
        ({
            let done = RenderEvent::PhaseComplete { detail, count_detail: count, elapsed };
            let warning = RenderEvent::Warning { message };
            let summary = RenderEvent::FinalSummary(info);
            let colored = state.mode.colors();
            &&& state.reaction(done).last() == ActionView::WriteLine(
                phase_line(detail@, optional_text(count), elapsed, colored),
            )
            &&& state.reaction(warning).last() == ActionView::WriteLine(
                warning_line(message@, colored),
            )
            &&& shows(warning_line(message@, colored), message@)
            &&& state.reaction(summary).last() == ActionView::WriteLine(
                style::summary_line(info, colored),
            )
            &&& !state.after(done).spinner
        }),
{
    let line = warning_line(message@, state.mode.colors());
    if state.mode.colors() {
        lemma_shows(
            line,
            "  "@ + style::styled("⚠"@, "yellow.bold"@) + " "@,
            message@,
            Seq::empty(),
        );
    } else {
        lemma_shows(line, "  warning: "@, message@, Seq::empty());
    }
}

} // verus!
