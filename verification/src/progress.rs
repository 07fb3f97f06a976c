//! The course of one quiz: how many equations it has, how many were
//! answered, and how many of those correctly.

use vstd::prelude::*;

verus! {

/// How hard the equations of a quiz are.
#[derive(Clone, Copy, Debug, PartialEq, Eq, Structural)]
pub enum EquationDifficulty {
    Simple,
    Medium,
    Complex,
}

impl EquationDifficulty {
    /// The name of the difficulty as it is shown.
    pub open spec fn label(self) -> Seq<char> {
        match self {
            EquationDifficulty::Simple => "Simple"@,
            EquationDifficulty::Medium => "Medium"@,
            EquationDifficulty::Complex => "Complex"@,
        }
    }

    /// The name of the difficulty as it is shown.
    pub fn name(&self) -> (r: &'static str)
        ensures
            r@ == self.label(),
    {
        match self {
            EquationDifficulty::Simple => "Simple",
            EquationDifficulty::Medium => "Medium",
            EquationDifficulty::Complex => "Complex",
        }
    }
}

/// What a progress record stands for.
pub struct ProgressView {
    pub number_equations: nat,
    pub equations_success: nat,
    pub equations_completed: nat,
}

/// The progress through a quiz of a fixed number of equations.
#[derive(Clone, Copy, Debug)]
pub struct EquationProgress {
    number_equations: u32,
    equations_success: u32,
    equations_completed: u32,
}

impl View for EquationProgress {
    type V = ProgressView;

    closed spec fn view(&self) -> ProgressView {
        ProgressView {
            number_equations: self.number_equations as nat,
            equations_success: self.equations_success as nat,
            equations_completed: self.equations_completed as nat,
        }
    }
}

impl EquationProgress {
    /// No more equations were answered correctly than were answered, and
    /// every count fits 32 bits.
    #[verifier::type_invariant]
    pub open spec fn wf(self) -> bool {
        &&& self@.equations_success <= self@.equations_completed
        &&& self@.equations_completed <= u32::MAX
        &&& self@.number_equations <= u32::MAX
    }

    /// Whether every equation of the quiz has been answered.
    pub open spec fn is_completed(self) -> bool {
        self@.equations_completed >= self@.number_equations
    }

    /// The progress at the start of a quiz of `number` equations.
    pub fn new(number: u32) -> (r: EquationProgress)
        ensures
            r@ == (ProgressView {
                number_equations: number as nat,
                equations_success: 0,
                equations_completed: 0,
            }),
    {
        EquationProgress { number_equations: number, equations_success: 0, equations_completed: 0 }
    }

    /// Records one answered equation, and whether the answer was correct.
    pub fn add_equation(&mut self, success: bool)
        requires
            old(self)@.equations_completed < u32::MAX,
        ensures
            final(self)@.number_equations == old(self)@.number_equations,
            final(self)@.equations_completed == old(self)@.equations_completed + 1,
            final(self)@.equations_success == old(self)@.equations_success + if success {
                1nat
            } else {
                0nat
            },
    {
        proof {
            use_type_invariant(&*self);
        }
        let completed: u32 = self.equations_completed + 1;
        let correct: u32 = if success {
            self.equations_success + 1
        } else {
            self.equations_success
        };
        *self = EquationProgress {
            number_equations: self.number_equations,
            equations_success: correct,
            equations_completed: completed,
        };
    }

    /// Whether every equation of the quiz has been answered.
    pub fn completed(&self) -> (r: bool)
        ensures
            r == self.is_completed(),
    {
        self.equations_completed >= self.number_equations
    }

    /// The number of equations in the quiz.
    pub fn number_equations(&self) -> (r: u32)
        ensures
            r == self@.number_equations,
    {
        self.number_equations
    }

    /// The number of equations answered correctly.
    pub fn equations_success(&self) -> (r: u32)
        ensures
            r == self@.equations_success,
            r <= self@.equations_completed,
    {
        proof {
            use_type_invariant(self);
        }
        self.equations_success
    }

    /// The number of equations answered.
    pub fn equations_completed(&self) -> (r: u32)
        ensures
            r == self@.equations_completed,
    {
        self.equations_completed
    }
}

} // verus!
