//! The course of a quiz: the menu, the equation in progress, the result.
//!
//! The state changes with each message of the front end. Nothing here draws
//! or reads the clock: the front end hands over the typed text and the time
//! of each tick, and shows the state it gets back.

use vstd::prelude::*;
use crate::answer::{parse_answer, parsed};
use crate::decimal::{Fraction, Ratio};
use crate::equation::medium::{
    new_complex_equation, new_medium_equation, EquationValue, BOUND_LIMIT,
};
use crate::equation::simple::{new_simple_equation, SimpleEquation};
use crate::equation::tree::{close, comparable};
use crate::equation::{Equation, EvalError};
use crate::number_pane::PaneColor;
use crate::progress::{EquationDifficulty, EquationProgress, ProgressView};
use crate::random::random_below;

verus! {

/// The number of equations in one quiz.
pub const QUIZ_LENGTH: u32 = 10;

/// The number of colours in the ground of the result screen.
pub const GROUND_COLORS: usize = 8;

/// The largest value of a channel of a dark colour: three tenths of full.
pub const DARK_LIMIT: u8 = 76;

/// An equation of any difficulty.
#[derive(Debug)]
pub enum QuizEquation {
    Simple(SimpleEquation),
    Tree(EquationValue),
}

impl QuizEquation {
    /// The display text of the equation.
    pub open spec fn text(self) -> Seq<char> {
        match self {
            QuizEquation::Simple(e) => e@.text(),
            QuizEquation::Tree(e) => e@.text(),
        }
    }

    /// Whether the equation is of the kind that a difficulty asks for: a
    /// simple one, a tree of one level, or a tree of two or three levels.
    pub open spec fn of_kind(self, difficulty: EquationDifficulty) -> bool {
        match difficulty {
            EquationDifficulty::Simple => self is Simple,
            EquationDifficulty::Medium => self matches QuizEquation::Tree(e) && e@.perfect(1),
            EquationDifficulty::Complex => self matches QuizEquation::Tree(e) && (e@.perfect(2)
                || e@.perfect(3)),
        }
    }

    /// Whether the equation can be asked at a difficulty: it is of the kind
    /// the difficulty asks for, and has a finite value and a bound within
    /// the limit for trees, so that every candidate within the limit for
    /// candidates is graded exactly.
    pub open spec fn suits(self, difficulty: EquationDifficulty) -> bool {
        &&& self.of_kind(difficulty)
        &&& self.value() is Some
        &&& self.bound() <= BOUND_LIMIT
    }

    /// The display text of the equation.
    pub fn render(&self) -> (r: String)
        ensures
            r@ == self.text(),
    {
        match self {
            QuizEquation::Simple(e) => e.render(),
            QuizEquation::Tree(e) => e.render(),
        }
    }
}

impl Equation for QuizEquation {
    open spec fn value(&self) -> Option<Ratio> {
        match self {
            QuizEquation::Simple(e) => e.value(),
            QuizEquation::Tree(e) => e.value(),
        }
    }

    open spec fn bound(&self) -> nat {
        match self {
            QuizEquation::Simple(e) => e.bound(),
            QuizEquation::Tree(e) => e.bound(),
        }
    }

    fn calc_value(&self) -> (r: Result<Fraction, EvalError>) {
        match self {
            QuizEquation::Simple(e) => e.calc_value(),
            QuizEquation::Tree(e) => e.calc_value(),
        }
    }
}

/// A new equation of the given difficulty.
pub fn new_equation(equation_difficulty: EquationDifficulty) -> (r: QuizEquation)
    ensures
        r.suits(equation_difficulty),
{
    match equation_difficulty {
        EquationDifficulty::Simple => QuizEquation::Simple(new_simple_equation()),
        EquationDifficulty::Medium => QuizEquation::Tree(new_medium_equation()),
        EquationDifficulty::Complex => QuizEquation::Tree(new_complex_equation()),
    }
}

/// Whether a colour is dark and opaque: no channel above three tenths of
/// full.
pub open spec fn is_dark(color: PaneColor) -> bool {
    &&& color.red <= DARK_LIMIT
    &&& color.green <= DARK_LIMIT
    &&& color.blue <= DARK_LIMIT
    &&& color.alpha == 255
}

/// Whether a list of colours is a ground for the result screen: eight dark
/// colours.
pub open spec fn is_ground(colors: Seq<PaneColor>) -> bool {
    colors.len() == GROUND_COLORS && forall|i: int| 0 <= i < colors.len() ==> is_dark(#[trigger] colors[i])
}

/// Draws a dark colour.
pub fn random_color() -> (r: PaneColor)
    ensures
        is_dark(r),
{
    let red: u8 = random_below(0, 77) as u8;
    let green: u8 = random_below(0, 77) as u8;
    let blue: u8 = random_below(0, 77) as u8;
    PaneColor { red, green, blue, alpha: 255 }
}

/// Draws the colours of the ground of the result screen.
pub fn generate_finish_menu_colors() -> (r: Vec<PaneColor>)
    ensures
        is_ground(r@),
{
    let mut colors: Vec<PaneColor> = Vec::new();
    while colors.len() < GROUND_COLORS
        invariant
            colors@.len() <= GROUND_COLORS,
            forall|i: int| 0 <= i < colors@.len() ==> is_dark(#[trigger] colors@[i]),
        decreases GROUND_COLORS - colors@.len(),
    {
        colors.push(random_color());
    }
    colors
}

/// The time a quiz has been on screen, in milliseconds.
#[derive(Clone, Copy, Debug, PartialEq, Eq, Structural)]
pub struct Timer {
    /// The time between all ticks so far.
    pub time_taken: u64,
    /// The time of the last tick, once there was one.
    pub last_tick: Option<u64>,
}

impl Timer {
    /// The timer after a tick at the time `current_tick`: the time since the
    /// last tick is added, where there was one, and the tick is remembered.
    /// A tick that lies before the last one adds nothing, and the total stays
    /// at the largest count once it is reached.
    pub open spec fn ticked(self, current_tick: u64) -> Timer {
        Timer {
            time_taken: match self.last_tick {
                Some(last) => {
                    let step: int = if current_tick >= last {
                        current_tick - last
                    } else {
                        0
                    };
                    if self.time_taken + step > u64::MAX {
                        u64::MAX
                    } else {
                        (self.time_taken + step) as u64
                    }
                },
                None => self.time_taken,
            },
            last_tick: Some(current_tick),
        }
    }

    /// A timer that has seen no tick.
    pub fn new() -> (r: Timer)
        ensures
            r == (Timer { time_taken: 0, last_tick: None }),
    {
        Timer { time_taken: 0, last_tick: None }
    }

    /// Takes a tick at the time `current_tick`.
    pub fn add_instant(&mut self, current_tick: u64)
        ensures
            *final(self) == old(self).ticked(current_tick),
    {
        if let Some(last_tick) = self.last_tick {
            self.time_taken = self.time_taken.saturating_add(current_tick.saturating_sub(last_tick));
        }
        self.last_tick = Some(current_tick);
    }
}

/// What the state of an equation in progress stands for.
pub struct QuestionView {
    pub current_equation: QuizEquation,
    pub equation_difficulty: EquationDifficulty,
    pub current_answer_text: Seq<char>,
    pub equation_progress: ProgressView,
}

/// The state while an equation is shown and an answer typed.
#[derive(Debug)]
pub struct EquationModelState {
    current_equation: QuizEquation,
    equation_difficulty: EquationDifficulty,
    current_answer_text: String,
    equation_progress: EquationProgress,
}

impl View for EquationModelState {
    type V = QuestionView;

    closed spec fn view(&self) -> QuestionView {
        QuestionView {
            current_equation: self.current_equation,
            equation_difficulty: self.equation_difficulty,
            current_answer_text: self.current_answer_text@,
            equation_progress: self.equation_progress@,
        }
    }
}

/// The state once a quiz is over.
#[derive(Debug)]
pub struct EquationFinishedState {
    pub equation_progress: EquationProgress,
    pub equation_difficulty: EquationDifficulty,
    pub ended_early: bool,
    pub background_colors: Vec<PaneColor>,
}

/// Where the program stands.
#[derive(Debug)]
pub enum ProgramState {
    MainMenu(EquationDifficulty),
    Equation(EquationModelState),
    FinishedEquation(EquationFinishedState),
}

/// What the front end tells the quiz.
#[derive(Debug)]
pub enum Message {
    StartGame,
    ChangeAnswer(String),
    SubmitAnswer,
    CancelEquation,
    ChangeDifficulty(EquationDifficulty),
    ReturnMenu,
    /// The clock, in milliseconds.
    Tick(u64),
}

/// The state of the program.
#[derive(Debug)]
pub struct Model {
    pub program_state: ProgramState,
    pub timer: Timer,
}

impl QuestionView {
    /// Whether the state is that of a quiz that has just begun.
    pub open spec fn fresh(self, difficulty: EquationDifficulty) -> bool {
        &&& self.equation_difficulty == difficulty
        &&& self.current_equation.suits(difficulty)
        &&& self.current_answer_text == Seq::<char>::empty()
        &&& self.equation_progress == (ProgressView {
            number_equations: QUIZ_LENGTH as nat,
            equations_success: 0,
            equations_completed: 0,
        })
    }

    /// Whether `accepted` is a grade that the typed answer can get: an
    /// answer that is no number is never accepted, one that is a number only
    /// where it lies within a thousandth of the value, and always there
    /// where the comparison fits in 128 bits.
    pub open spec fn grades(self, accepted: bool) -> bool {
        match parsed(self.current_answer_text) {
            Some(candidate) => {
                &&& accepted ==> close(self.current_equation.value(), candidate)
                &&& comparable(self.current_equation.bound(), candidate) ==> (accepted <==> close(
                    self.current_equation.value(),
                    candidate,
                ))
            },
            None => !accepted,
        }
    }

    /// The progress after one more answer with the given grade.
    pub open spec fn graded(self, accepted: bool) -> ProgressView {
        ProgressView {
            number_equations: self.equation_progress.number_equations,
            equations_success: self.equation_progress.equations_success + if accepted {
                1nat
            } else {
                0nat
            },
            equations_completed: self.equation_progress.equations_completed + 1,
        }
    }

    /// Whether `next` can follow this state when the answer is submitted
    /// with the given grade: the result screen once every equation has been
    /// answered, otherwise the next equation of the same difficulty with an
    /// empty answer.
    pub open spec fn submits_to(self, accepted: bool, next: ProgramState) -> bool {
        let progress = self.graded(accepted);
        if progress.equations_completed >= progress.number_equations {
            next matches ProgramState::FinishedEquation(done) && done.equation_progress@
                == progress && done.equation_difficulty == self.equation_difficulty
                && !done.ended_early && is_ground(done.background_colors@)
        } else {
            next matches ProgramState::Equation(state) && state@.equation_progress == progress
                && state@.equation_difficulty == self.equation_difficulty
                && state@.current_equation.suits(self.equation_difficulty)
                && state@.current_answer_text == Seq::<char>::empty()
        }
    }
}

impl EquationModelState {
    /// While an equation is shown, the quiz is not yet complete.
    #[verifier::type_invariant]
    pub open spec fn wf(self) -> bool {
        self@.equation_progress.equations_completed < self@.equation_progress.number_equations
    }

    /// The equation that is shown.
    pub fn current_equation(&self) -> (r: &QuizEquation)
        ensures
            *r == self@.current_equation,
    {
        &self.current_equation
    }

    /// The difficulty of the quiz.
    pub fn equation_difficulty(&self) -> (r: EquationDifficulty)
        ensures
            r == self@.equation_difficulty,
    {
        self.equation_difficulty
    }

    /// The answer as it has been typed so far.
    pub fn current_answer_text(&self) -> (r: &str)
        ensures
            r@ == self@.current_answer_text,
    {
        self.current_answer_text.as_str()
    }

    /// The progress through the quiz.
    pub fn equation_progress(&self) -> (r: EquationProgress)
        ensures
            r@ == self@.equation_progress,
    {
        self.equation_progress
    }
}

/// The state at the start of a quiz of the given difficulty: a first
/// equation, an empty answer, and nothing answered yet.
pub fn new_equation_model_state(equation_difficulty: EquationDifficulty) -> (r: EquationModelState)
    ensures
        r@.fresh(equation_difficulty),
{
    let equation: QuizEquation = new_equation(equation_difficulty);
    EquationModelState {
        current_equation: equation,
        equation_difficulty,
        current_answer_text: String::new(),
        equation_progress: EquationProgress::new(QUIZ_LENGTH),
    }
}

impl EquationModelState {
    /// Replaces the typed answer.
    pub fn change_answer(self, new_answer: String) -> (r: EquationModelState)
        ensures
            r@ == (QuestionView { current_answer_text: new_answer@, ..self@ }),
    {
        proof {
            use_type_invariant(&self);
        }
        EquationModelState {
            current_equation: self.current_equation,
            equation_difficulty: self.equation_difficulty,
            current_answer_text: new_answer,
            equation_progress: self.equation_progress,
        }
    }

    /// Grades the typed answer and moves on: to the result screen after
    /// the last equation, otherwise to the next equation.
    pub fn submit(self) -> (next: ProgramState)
        ensures
            exists|accepted: bool| self@.grades(accepted) && #[trigger] self@.submits_to(accepted, next),
    {
        proof {
            use_type_invariant(&self);
            use_type_invariant(&self.equation_progress);
        }
        let accepted: bool = match parse_answer(self.current_answer_text.as_str()) {
            Some(candidate) => self.current_equation.compare_value(&candidate),
            None => false,
        };
        let mut progress: EquationProgress = self.equation_progress;
        progress.add_equation(accepted);
        let next: ProgramState = if progress.completed() {
            ProgramState::FinishedEquation(
                EquationFinishedState {
                    equation_progress: progress,
                    equation_difficulty: self.equation_difficulty,
                    ended_early: false,
                    background_colors: generate_finish_menu_colors(),
                },
            )
        } else {
            ProgramState::Equation(
                EquationModelState {
                    current_equation: new_equation(self.equation_difficulty),
                    equation_difficulty: self.equation_difficulty,
                    current_answer_text: String::new(),
                    equation_progress: progress,
                },
            )
        };
        proof {
            assert(self@.grades(accepted) && self@.submits_to(accepted, next));
        }
        next
    }

    /// Ends the quiz before its last equation.
    pub fn cancel(self) -> (r: EquationFinishedState)
        ensures
            r.equation_progress@ == self@.equation_progress,
            r.equation_difficulty == self@.equation_difficulty,
            r.ended_early,
            is_ground(r.background_colors@),
    {
        EquationFinishedState {
            equation_progress: self.equation_progress,
            equation_difficulty: self.equation_difficulty,
            ended_early: true,
            background_colors: generate_finish_menu_colors(),
        }
    }
}

/// Whether the state `after` can follow `before` on a message. A tick leaves
/// the state as it is.
pub open spec fn steps_to(before: ProgramState, message: Message, after: ProgramState) -> bool {
    match (message, before) {
        (Message::StartGame, ProgramState::MainMenu(difficulty)) => {
            after matches ProgramState::Equation(state) && state@.fresh(difficulty)
        },
        (Message::StartGame, ProgramState::FinishedEquation(done)) => {
            after matches ProgramState::Equation(state) && state@.fresh(done.equation_difficulty)
        },
        (Message::ChangeAnswer(new_answer), ProgramState::Equation(old_state)) => {
            after matches ProgramState::Equation(state) && state@ == (QuestionView {
                current_answer_text: new_answer@,
                ..old_state@
            })
        },
        (Message::SubmitAnswer, ProgramState::Equation(old_state)) => {
            exists|accepted: bool|
                old_state@.grades(accepted) && #[trigger] old_state@.submits_to(accepted, after)
        },
        (Message::ReturnMenu, _) => after == ProgramState::MainMenu(EquationDifficulty::Simple),
        (Message::ChangeDifficulty(difficulty), ProgramState::MainMenu(_)) => {
            after == ProgramState::MainMenu(difficulty)
        },
        (Message::CancelEquation, ProgramState::Equation(old_state)) => {
            after matches ProgramState::FinishedEquation(done) && done.equation_progress@
                == old_state@.equation_progress && done.equation_difficulty
                == old_state@.equation_difficulty && done.ended_early && is_ground(
                done.background_colors@,
            )
        },
        _ => after == before,
    }
}

/// Whether `after` can follow `before` on a message: a tick moves the timer
/// and nothing else, any other message the state and not the timer.
pub open spec fn follows(before: Model, message: Message, after: Model) -> bool {
    match message {
        Message::Tick(now) => after.timer == before.timer.ticked(now) && after.program_state
            == before.program_state,
        _ => after.timer == before.timer && steps_to(
            before.program_state,
            message,
            after.program_state,
        ),
    }
}

/// The state that follows on a message. A tick leaves it as it is.
pub fn step(state: ProgramState, message: Message) -> (next: ProgramState)
    ensures
        steps_to(state, message, next),
{
    match message {
        Message::StartGame => match state {
            ProgramState::MainMenu(equation_difficulty) => ProgramState::Equation(
                new_equation_model_state(equation_difficulty),
            ),
            ProgramState::FinishedEquation(done) => ProgramState::Equation(
                new_equation_model_state(done.equation_difficulty),
            ),
            ProgramState::Equation(equation_state) => ProgramState::Equation(equation_state),
        },
        Message::ChangeAnswer(new_answer) => match state {
            ProgramState::Equation(equation_state) => ProgramState::Equation(
                equation_state.change_answer(new_answer),
            ),
            other => other,
        },
        Message::SubmitAnswer => match state {
            ProgramState::Equation(equation_state) => equation_state.submit(),
            other => other,
        },
        Message::ReturnMenu => ProgramState::MainMenu(EquationDifficulty::Simple),
        Message::ChangeDifficulty(equation_difficulty) => match state {
            ProgramState::MainMenu(_) => ProgramState::MainMenu(equation_difficulty),
            other => other,
        },
        Message::CancelEquation => match state {
            ProgramState::Equation(equation_state) => ProgramState::FinishedEquation(
                equation_state.cancel(),
            ),
            other => other,
        },
        Message::Tick(_) => state,
    }
}

impl Model {
    /// The program as it starts: the menu with the simple difficulty picked,
    /// and a timer that has seen no tick.
    pub fn new() -> (r: Model)
        ensures
            r.program_state == ProgramState::MainMenu(EquationDifficulty::Simple),
            r.timer == (Timer { time_taken: 0, last_tick: None }),
    {
        Model { program_state: ProgramState::MainMenu(EquationDifficulty::Simple), timer: Timer::new() }
    }
}

/// Changes the state of the program on a message.
pub fn update(model: &mut Model, message: Message)
    ensures
        follows(*old(model), message, *final(model)),
{
    match message {
        Message::Tick(now) => {
            model.timer.add_instant(now);
        },
        other => {
            let mut state: ProgramState = ProgramState::MainMenu(EquationDifficulty::Simple);
            std::mem::swap(&mut model.program_state, &mut state);
            model.program_state = step(state, other);
        },
    }
}

} // verus!
