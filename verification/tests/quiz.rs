use number_pain::equation::Equation;
use number_pain::progress::EquationDifficulty;
use number_pain::quiz::{
    generate_finish_menu_colors, new_equation, new_equation_model_state, random_color, step,
    update, EquationModelState, Message, Model, ProgramState, QuizEquation, Timer,
};

fn question(model: &Model) -> &EquationModelState {
    match &model.program_state {
        ProgramState::Equation(state) => state,
        other => panic!("no equation in progress: {other:?}"),
    }
}

/// The value of the current equation, written with four fractional digits.
fn right_answer(model: &Model) -> String {
    let value = question(model).current_equation().calc_value().unwrap();
    format!("{:.4}", value.num() as f64 / value.den() as f64)
}

fn started(difficulty: EquationDifficulty) -> Model {
    let mut model = Model::new();
    update(&mut model, Message::ChangeDifficulty(difficulty));
    update(&mut model, Message::StartGame);
    model
}

#[test]
fn timer_adds_the_time_between_ticks() {
    let mut timer = Timer::new();
    assert_eq!(timer, Timer { time_taken: 0, last_tick: None });
    timer.add_instant(100);
    assert_eq!(timer, Timer { time_taken: 0, last_tick: Some(100) });
    timer.add_instant(110);
    timer.add_instant(125);
    assert_eq!(timer, Timer { time_taken: 25, last_tick: Some(125) });
}

#[test]
fn timer_ignores_a_tick_from_the_past_and_saturates() {
    let mut timer = Timer { time_taken: 25, last_tick: Some(125) };
    timer.add_instant(100);
    assert_eq!(timer, Timer { time_taken: 25, last_tick: Some(100) });
    let mut full = Timer { time_taken: u64::MAX - 3, last_tick: Some(0) };
    full.add_instant(10);
    assert_eq!(full, Timer { time_taken: u64::MAX, last_tick: Some(10) });
}

#[test]
fn random_colors_are_dark_and_opaque() {
    let first = random_color();
    let mut varied = false;
    for _ in 0..300 {
        let color = random_color();
        assert!(color.red <= 76 && color.green <= 76 && color.blue <= 76);
        assert_eq!(color.alpha, 255);
        varied = varied || color != first;
    }
    assert!(varied);
}

#[test]
fn finish_menu_has_eight_dark_colors() {
    let colors = generate_finish_menu_colors();
    assert_eq!(colors.len(), 8);
    assert!(colors.iter().all(|c| c.red <= 76 && c.green <= 76 && c.blue <= 76 && c.alpha == 255));
}

#[test]
fn new_equation_follows_the_difficulty() {
    for _ in 0..50 {
        assert!(matches!(new_equation(EquationDifficulty::Simple), QuizEquation::Simple(_)));
        let medium = new_equation(EquationDifficulty::Medium);
        assert!(matches!(medium, QuizEquation::Tree(_)));
        assert_eq!(medium.render().matches('.').count(), 2);
        let complex = new_equation(EquationDifficulty::Complex);
        let leaves = complex.render().matches('.').count();
        assert!(leaves == 4 || leaves == 8);
    }
}

#[test]
fn new_equation_model_state_starts_a_quiz_of_ten() {
    let state = new_equation_model_state(EquationDifficulty::Simple);
    assert_eq!(state.equation_difficulty(), EquationDifficulty::Simple);
    assert_eq!(state.current_answer_text(), "");
    assert_eq!(state.equation_progress().number_equations(), 10);
    assert_eq!(state.equation_progress().equations_completed(), 0);
    assert_eq!(state.equation_progress().equations_success(), 0);
    assert!(matches!(state.current_equation(), QuizEquation::Simple(_)));
}

#[test]
fn model_starts_at_the_menu() {
    let model = Model::new();
    assert!(matches!(model.program_state, ProgramState::MainMenu(EquationDifficulty::Simple)));
    assert_eq!(model.timer, Timer { time_taken: 0, last_tick: None });
}

#[test]
fn menu_changes_difficulty_and_starts() {
    let mut model = Model::new();
    update(&mut model, Message::ChangeDifficulty(EquationDifficulty::Complex));
    assert!(matches!(model.program_state, ProgramState::MainMenu(EquationDifficulty::Complex)));
    // nothing to answer or cancel at the menu
    update(&mut model, Message::SubmitAnswer);
    update(&mut model, Message::CancelEquation);
    update(&mut model, Message::ChangeAnswer("1".to_string()));
    assert!(matches!(model.program_state, ProgramState::MainMenu(EquationDifficulty::Complex)));
    update(&mut model, Message::StartGame);
    let state = question(&model);
    assert_eq!(state.equation_difficulty(), EquationDifficulty::Complex);
    assert!(matches!(state.current_equation(), QuizEquation::Tree(_)));
}

#[test]
fn difficulty_stays_while_an_equation_is_shown() {
    let mut model = started(EquationDifficulty::Medium);
    let shown = question(&model).current_equation().render();
    update(&mut model, Message::ChangeDifficulty(EquationDifficulty::Simple));
    update(&mut model, Message::StartGame);
    assert_eq!(question(&model).equation_difficulty(), EquationDifficulty::Medium);
    assert_eq!(question(&model).current_equation().render(), shown);
}

#[test]
fn typed_answer_replaces_the_text_only() {
    let mut model = started(EquationDifficulty::Simple);
    let shown = question(&model).current_equation().render();
    update(&mut model, Message::ChangeAnswer("4".to_string()));
    update(&mut model, Message::ChangeAnswer("42".to_string()));
    let state = question(&model);
    assert_eq!(state.current_answer_text(), "42");
    assert_eq!(state.current_equation().render(), shown);
    assert_eq!(state.equation_progress().equations_completed(), 0);
}

#[test]
fn submitted_answers_are_graded() {
    let mut model = started(EquationDifficulty::Medium);
    let answer = right_answer(&model);
    update(&mut model, Message::ChangeAnswer(answer));
    update(&mut model, Message::SubmitAnswer);
    let progress = question(&model).equation_progress();
    assert_eq!((progress.equations_completed(), progress.equations_success()), (1, 1));
    assert_eq!(question(&model).current_answer_text(), "");
    // what is no number counts as wrong
    update(&mut model, Message::ChangeAnswer("seven".to_string()));
    update(&mut model, Message::SubmitAnswer);
    let progress = question(&model).equation_progress();
    assert_eq!((progress.equations_completed(), progress.equations_success()), (2, 1));
    // so does a number that is off by more than a thousandth
    let value = question(&model).current_equation().calc_value().unwrap();
    let off = value.num() as f64 / value.den() as f64 + 0.5;
    update(&mut model, Message::ChangeAnswer(format!("{off:.4}")));
    update(&mut model, Message::SubmitAnswer);
    let progress = question(&model).equation_progress();
    assert_eq!((progress.equations_completed(), progress.equations_success()), (3, 1));
    // and an empty answer
    update(&mut model, Message::SubmitAnswer);
    let progress = question(&model).equation_progress();
    assert_eq!((progress.equations_completed(), progress.equations_success()), (4, 1));
}

#[test]
fn tenth_answer_ends_the_quiz() {
    let mut model = started(EquationDifficulty::Simple);
    for round in 0..10 {
        assert_eq!(question(&model).equation_progress().equations_completed(), round);
        if round % 2 == 0 {
            let answer = right_answer(&model);
            update(&mut model, Message::ChangeAnswer(answer));
        }
        update(&mut model, Message::SubmitAnswer);
    }
    match &model.program_state {
        ProgramState::FinishedEquation(done) => {
            assert_eq!(done.equation_progress.equations_completed(), 10);
            assert_eq!(done.equation_progress.equations_success(), 5);
            assert_eq!(done.equation_difficulty, EquationDifficulty::Simple);
            assert!(!done.ended_early);
            assert_eq!(done.background_colors.len(), 8);
        }
        other => panic!("the quiz should be over: {other:?}"),
    }
    // starting again keeps the difficulty
    update(&mut model, Message::StartGame);
    assert_eq!(question(&model).equation_difficulty(), EquationDifficulty::Simple);
    assert_eq!(question(&model).equation_progress().equations_completed(), 0);
}

#[test]
fn cancelling_ends_the_quiz_early() {
    let mut model = started(EquationDifficulty::Complex);
    update(&mut model, Message::SubmitAnswer);
    update(&mut model, Message::CancelEquation);
    match &model.program_state {
        ProgramState::FinishedEquation(done) => {
            assert_eq!(done.equation_progress.equations_completed(), 1);
            assert_eq!(done.equation_progress.equations_success(), 0);
            assert_eq!(done.equation_difficulty, EquationDifficulty::Complex);
            assert!(done.ended_early);
            assert_eq!(done.background_colors.len(), 8);
        }
        other => panic!("the quiz should be over: {other:?}"),
    }
    update(&mut model, Message::ReturnMenu);
    assert!(matches!(model.program_state, ProgramState::MainMenu(EquationDifficulty::Simple)));
}

#[test]
fn ticks_move_the_timer_and_nothing_else() {
    let mut model = started(EquationDifficulty::Medium);
    let shown = question(&model).current_equation().render();
    update(&mut model, Message::Tick(1_000));
    update(&mut model, Message::Tick(1_010));
    update(&mut model, Message::Tick(1_020));
    assert_eq!(model.timer, Timer { time_taken: 20, last_tick: Some(1_020) });
    assert_eq!(question(&model).current_equation().render(), shown);
    update(&mut model, Message::ChangeAnswer("1".to_string()));
    assert_eq!(model.timer, Timer { time_taken: 20, last_tick: Some(1_020) });
}

#[test]
fn step_returns_to_the_menu_from_anywhere() {
    let menu = step(ProgramState::MainMenu(EquationDifficulty::Complex), Message::ReturnMenu);
    assert!(matches!(menu, ProgramState::MainMenu(EquationDifficulty::Simple)));
    let state = ProgramState::Equation(new_equation_model_state(EquationDifficulty::Medium));
    let menu = step(state, Message::ReturnMenu);
    assert!(matches!(menu, ProgramState::MainMenu(EquationDifficulty::Simple)));
}

#[test]
fn step_leaves_the_state_on_a_tick() {
    let menu = step(ProgramState::MainMenu(EquationDifficulty::Medium), Message::Tick(7));
    assert!(matches!(menu, ProgramState::MainMenu(EquationDifficulty::Medium)));
}
