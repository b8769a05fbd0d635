//! A site's `preprocess:` definition: its syntax tree, the values it
//! computes with, and how it runs over a page.
pub mod ast;
pub mod value;
pub mod methods;
pub mod jobs;
pub mod pattern;
pub mod interpreter;

use vstd::prelude::*;
use self::ast::Stmt;
use self::interpreter::{
    all_small_literal_emits, all_straight, budget_exceeded, final_page, requests_ok, run_stmts, start_state, stmts_write, straight_run,
    straight_steps, PreprocessHost, PreprocessRun, PREPROCESS_STEP_BUDGET,
};
use self::jobs::PreprocessJobs;

verus! {

/// A definition ready to run.
pub struct PreprocessPipeline {
    stmts: Vec<Stmt>,
}

impl View for PreprocessPipeline {
    type V = Seq<Stmt>;

    /// The statements of the definition.
    closed spec fn view(&self) -> Seq<Stmt> {
        self.stmts@
    }
}

impl PreprocessPipeline {
    /// The definition made of `stmts`.
    pub fn new(stmts: Vec<Stmt>) -> (r: Self)
        ensures
            r@ == stmts@,
    {
        PreprocessPipeline { stmts }
    }

    /// Runs the definition over `source`, seeing the results of `jobs`;
    /// gives the URLs this run asked for (see [`run_stmts`]). The caller
    /// fetches them and runs the definition again, so that the next run
    /// sees their bodies.
    pub fn execute<H: PreprocessHost>(&self, source: &mut String, jobs: &PreprocessJobs, host: &H) -> (r:
        Result<PreprocessRun, String>)
        ensures
            r matches Ok(run) ==> requests_ok(run.requested@, jobs@),
            self@.len() > PREPROCESS_STEP_BUDGET ==> r is Err,
            all_small_literal_emits(self@) ==> {
                &&& (2 * self@.len() <= PREPROCESS_STEP_BUDGET ==> r is Ok)
                &&& (2 * self@.len() > PREPROCESS_STEP_BUDGET ==> (r matches Err(e) && e@
                    == budget_exceeded()))
            },
            !stmts_write(self@) ==> final(source)@ == old(source)@,
            all_straight(self@) && straight_steps(self@) <= PREPROCESS_STEP_BUDGET ==> {
                &&& (r is Ok <==> straight_run(self@, start_state(old(source)@)) is Some)
                &&& (r is Ok ==> final_page(straight_run(self@, start_state(old(source)@)))
                    == final(source)@)
            },
    {
        run_stmts(&self.stmts, source, jobs, host)
    }
}

/// Runs `pipeline` over `source` (see [`PreprocessPipeline::execute`]).
pub fn run_preprocess<H: PreprocessHost>(
    pipeline: &PreprocessPipeline,
    source: &mut String,
    jobs: &PreprocessJobs,
    host: &H,
) -> (r: Result<PreprocessRun, String>)
    ensures
        r matches Ok(run) ==> requests_ok(run.requested@, jobs@),
        pipeline@.len() > PREPROCESS_STEP_BUDGET ==> r is Err,
        all_small_literal_emits(pipeline@) ==> {
            &&& (2 * pipeline@.len() <= PREPROCESS_STEP_BUDGET ==> r is Ok)
            &&& (2 * pipeline@.len() > PREPROCESS_STEP_BUDGET ==> (r matches Err(e) && e@
                == budget_exceeded()))
        },
        !stmts_write(pipeline@) ==> final(source)@ == old(source)@,
        all_straight(pipeline@) && straight_steps(pipeline@) <= PREPROCESS_STEP_BUDGET ==> {
            &&& (r is Ok <==> straight_run(pipeline@, start_state(old(source)@)) is Some)
            &&& (r is Ok ==> final_page(straight_run(pipeline@, start_state(old(source)@)))
                == final(source)@)
        },
{
    pipeline.execute(source, jobs, host)
}

} // verus!
