//! State of an interactive solver: the chosen kind of equation, the problem being
//! edited and its current solution.
use vstd::prelude::*;

use crate::initial_value::Problem;
use crate::solution::Solution;

verus! {

/// The kinds of equation the solver offers.
#[derive(Clone, Copy, Debug, PartialEq, Eq, Structural)]
pub enum SolutionType {
    /// `y'' + a·y' + b·y = 0` with constant coefficients.
    LinearConstant,
    /// Placeholder for kinds not offered yet.
    NotYet,
}

impl Default for SolutionType {
    fn default() -> (r: Self)
        ensures
            r == SolutionType::LinearConstant,
    {
        SolutionType::LinearConstant
    }
}

/// The problem offered when the solver starts: `y'' + 4y' + 3y = 0`,
/// `y(0) = 13`, `y'(0) = 11.5`, in millionths.
pub open spec fn starting_problem() -> Problem {
    Problem { a: 4_000_000, b: 3_000_000, y0: 13_000_000, y0_prime: 11_500_000 }
}

/// An editable problem together with a solution of it.
#[derive(Clone, Copy, Debug)]
pub struct Solver {
    pub solution_type: SolutionType,
    pub problem: Problem,
    pub solution: Solution,
}

impl Solver {
    /// The solution held is the one of the problem held.
    pub open spec fn is_solved(&self) -> bool {
        self.solution.solves(self.problem)
    }

    /// A solver on the starting problem, already solved.
    pub fn new() -> (r: Self)
        ensures
            r.solution_type == SolutionType::LinearConstant,
            r.problem == starting_problem(),
            r.is_solved(),
    {
        let problem = Problem { a: 4_000_000, b: 3_000_000, y0: 13_000_000, y0_prime: 11_500_000 };
        let solution = Solution::from_initial(&problem);
        Solver { solution_type: SolutionType::default(), problem, solution }
    }

    /// Replaces the solution by the one of the problem as it now stands.
    pub fn solve(&mut self)
        ensures
            final(self).solution_type == old(self).solution_type,
            final(self).problem == old(self).problem,
            final(self).is_solved(),
    {
        self.solution = Solution::from_initial(&self.problem);
    }
}

impl Default for Solver {
    fn default() -> (r: Self)
        ensures
            r.solution_type == SolutionType::LinearConstant,
            r.problem == starting_problem(),
            r.is_solved(),
    {
        Solver::new()
    }
}

/// The application's state: one solver.
#[derive(Clone, Copy, Debug)]
pub struct TemplateApp {
    pub solver: Solver,
}

impl Default for TemplateApp {
    fn default() -> (r: Self)
        ensures
            r.solver.solution_type == SolutionType::LinearConstant,
            r.solver.problem == starting_problem(),
            r.solver.is_solved(),
    {
        TemplateApp { solver: Solver::new() }
    }
}

} // verus!
