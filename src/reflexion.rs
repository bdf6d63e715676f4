//! The generate-and-critique loop of an implementing agent, and the retry
//! loop of constrained generation, as state machines. The model calls and
//! the parsing of their answers happen outside; each step here says what to
//! ask next.
use vstd::prelude::*;
use crate::agent::{AgentState, Artifact, Task, clone_artifact, clone_state, clone_task};
use crate::router::RetryCause;
use crate::text::{concat, owned};
use crate::vox::CodeGenerationResponse;

verus! {

/// Default number of generate-and-critique rounds.
pub const MAX_REFLEXION_ITERATIONS: u8 = 3;
/// Default number of retries of constrained generation.
pub const DEFAULT_MAX_RETRIES: u8 = 3;

/// `items` each written as a list line `- item\n`, in order.
pub open spec fn bullet_lines(items: Seq<Seq<char>>) -> Seq<char>
    decreases items.len(),
{
    if items.len() == 0 {
        seq![]
    } else {
        bullet_lines(items.drop_last()) + "- "@ + items.last() + "\n"@
    }
}

/// `items` joined with new lines.
pub open spec fn joined_lines(items: Seq<Seq<char>>) -> Seq<char>
    decreases items.len(),
{
    if items.len() == 0 {
        seq![]
    } else if items.len() == 1 {
        items[0]
    } else {
        joined_lines(items.drop_last()) + "\n"@ + items.last()
    }
}

/// The prompt that asks for an implementation of `t`.
pub open spec fn task_prompt(t: Task) -> Seq<char> {
    let head = "Task: "@ + t.description@ + "\n"@;
    let ctx = match t.context {
        Some(c) => "\nContext: "@ + c@ + "\n"@,
        None => seq![],
    };
    let cons = if t.constraints@.len() > 0 {
        "\nConstraints:\n"@ + bullet_lines(t.constraints@.map_values(|s: String| s@))
    } else {
        seq![]
    };
    head + ctx + cons + "\nImplement the task as described."@
}

/// The prompt that asks for a critique of `code` written for `t`.
pub open spec fn critique_prompt_spec(t: Task, code: Seq<char>) -> Seq<char> {
    "Critique the following code implementation based on the task and context.\nTask: "@ + t.description@
        + "\nImplementation:\n```rust\n"@ + code
        + "\n```\nEvaluate for: correctness, safety (no unwrap), adherence to constraints, and test coverage."@
}

/// The implementation prompt once a critique raised `feedback`.
pub open spec fn revised_prompt(t: Task, feedback: Seq<char>) -> Seq<char> {
    task_prompt(t) + "\n\nPrevious attempt had the following issues:\n"@ + feedback
        + "\nPlease fix these and provide a new implementation."@
}

fn lines_of(items: &Vec<String>, bullets: bool) -> (r: String)
    ensures
        bullets ==> r@ == bullet_lines(items@.map_values(|s: String| s@)),
        !bullets ==> r@ == joined_lines(items@.map_values(|s: String| s@)),
{
    let mut out = String::new();
    let mut i: usize = 0;
    while i < items.len()
        invariant
            i <= items@.len(),
            bullets ==> out@ == bullet_lines(items@.subrange(0, i as int).map_values(|s: String| s@)),
            !bullets ==> out@ == joined_lines(items@.subrange(0, i as int).map_values(|s: String| s@)),
        decreases items@.len() - i,
    {
        proof {
            let v = items@.subrange(0, i as int + 1).map_values(|s: String| s@);
            assert(v.drop_last() =~= items@.subrange(0, i as int).map_values(|s: String| s@));
            assert(v.last() == items@[i as int]@);
            if i == 0 {
                assert(items@.subrange(0, 0).map_values(|s: String| s@) =~= Seq::<Seq<char>>::empty());
                assert(v.len() == 1 && v[0] == items@[0]@);
            }
        }
        if bullets {
            out = concat(concat(concat(out.as_str(), "- ").as_str(), items[i].as_str()).as_str(), "\n");
        } else if i == 0 {
            out = items[i].clone();
        } else {
            out = concat(concat(out.as_str(), "\n").as_str(), items[i].as_str());
        }
        i = i + 1;
    }
    proof {
        assert(items@.subrange(0, i as int) =~= items@);
    }
    out
}

/// The prompt that asks for an implementation of `task`.
pub fn build_prompt(task: &Task) -> (r: String)
    ensures
        r@ == task_prompt(*task),
{
    let mut p = concat(concat("Task: ", task.description.as_str()).as_str(), "\n");
    match &task.context {
        Some(c) => {
            p = concat(p.as_str(), concat(concat("\nContext: ", c.as_str()).as_str(), "\n").as_str());
        },
        None => {},
    }
    if task.constraints.len() > 0 {
        p = concat(p.as_str(), concat("\nConstraints:\n", lines_of(&task.constraints, true).as_str()).as_str());
    }
    let r = concat(p.as_str(), "\nImplement the task as described.");
    proof {
        let t = *task;
        let ctx: Seq<char> = match t.context {
            Some(c) => "\nContext: "@ + c@ + "\n"@,
            None => seq![],
        };
        let cons: Seq<char> = if t.constraints@.len() > 0 {
            "\nConstraints:\n"@ + bullet_lines(t.constraints@.map_values(|s: String| s@))
        } else {
            seq![]
        };
        assert(r@ =~= "Task: "@ + t.description@ + "\n"@ + ctx + cons + "\nImplement the task as described."@);
    }
    r
}

/// The prompt that asks for a critique of `code` written for `task`.
pub fn critique_prompt(task: &Task, code: &str) -> (r: String)
    ensures
        r@ == critique_prompt_spec(*task, code@),
{
    let a = concat("Critique the following code implementation based on the task and context.\nTask: ", task.description.as_str());
    let b = concat(concat(a.as_str(), "\nImplementation:\n```rust\n").as_str(), code);
    concat(b.as_str(), "\n```\nEvaluate for: correctness, safety (no unwrap), adherence to constraints, and test coverage.")
}

/// What the implementing agent asks for next.
#[derive(Clone, Debug)]
pub enum ReflexionStep {
    /// Ask for an implementation with this prompt.
    Generate(String),
    /// Ask for a critique with this prompt.
    Critique(String),
    /// The loop is over; the artifact awaits review.
    Submitted(Artifact),
    /// The loop could not start or ended without code.
    Failed(String),
}

/// An implementing agent: its lifecycle state and its reflexion loop.
pub struct FeatureImplementer {
    pub id: String,
    pub state: AgentState,
    pub max_reflexion_iterations: u8,
    pub iteration: u8,
    pub task: Option<Task>,
    pub current: Option<CodeGenerationResponse>,
}

impl FeatureImplementer {
    /// An idle implementer allowing the default number of rounds.
    pub fn new(id: String) -> (r: Self)
        ensures
            r.state is Idle,
            r.max_reflexion_iterations == MAX_REFLEXION_ITERATIONS,
            r.task is None,
    {
        FeatureImplementer {
            id,
            state: AgentState::Idle,
            max_reflexion_iterations: MAX_REFLEXION_ITERATIONS,
            iteration: 0,
            task: None,
            current: None,
        }
    }

    /// The same implementer allowing `n` rounds.
    pub fn with_max_iterations(self, n: u8) -> (r: Self)
        ensures
            r == (FeatureImplementer { max_reflexion_iterations: n, ..self }),
    {
        FeatureImplementer { max_reflexion_iterations: n, ..self }
    }

    /// Takes `task` and asks for a first implementation. Refused unless idle.
    pub fn start(&mut self, task: Task) -> (r: ReflexionStep)
        ensures
            old(self).state is Idle && old(self).max_reflexion_iterations > 0 ==> (r matches ReflexionStep::Generate(p) && p@
                == task_prompt(task) && final(self).state is Processing && final(self).iteration == 0
                && final(self).task == Some(task)),
            !(old(self).state is Idle) ==> r is Failed && final(self).state == old(self).state,
            old(self).state is Idle && old(self).max_reflexion_iterations == 0 ==> r is Failed,
    {
        if !self.state.can_accept_task() {
            return ReflexionStep::Failed(owned("Can only start processing from Idle state"));
        }
        if self.max_reflexion_iterations == 0 {
            return ReflexionStep::Failed(owned("Exhausted reflexion iterations without generating code"));
        }
        let prompt = build_prompt(&task);
        self.state = AgentState::Processing(clone_task(&task));
        self.iteration = 0;
        self.current = None;
        self.task = Some(task);
        ReflexionStep::Generate(prompt)
    }

    /// Takes the implementation just generated and asks for its critique.
    pub fn on_generated(&mut self, response: CodeGenerationResponse) -> (r: ReflexionStep)
        ensures
            old(self).task is Some ==> (r matches ReflexionStep::Critique(p) && p@ == critique_prompt_spec(
                old(self).task.unwrap(),
                response.code@,
            ) && final(self).current == Some(response)),
            old(self).task is None ==> r is Failed,
    {
        match &self.task {
            Some(t) => {
                let p = critique_prompt(t, response.code.as_str());
                self.current = Some(response);
                ReflexionStep::Critique(p)
            },
            None => ReflexionStep::Failed(owned("No task in progress")),
        }
    }

    /// Takes the critique of the last implementation: a pass, or the last
    /// round, submits it for review; otherwise the issues go into the next
    /// prompt.
    pub fn on_critique(&mut self, pass: bool, issues: &Vec<String>) -> (r: ReflexionStep)
        ensures
            (old(self).task is Some && old(self).current is Some && !pass && old(self).iteration + 1
                < old(self).max_reflexion_iterations) ==> (r matches ReflexionStep::Generate(p) && p@ == revised_prompt(
                old(self).task.unwrap(),
                joined_lines(issues@.map_values(|s: String| s@)),
            ) && final(self).iteration == old(self).iteration + 1),
            (old(self).task is Some && old(self).current is Some && (pass || old(self).iteration + 1
                >= old(self).max_reflexion_iterations) && old(self).state is Processing) ==> (r matches ReflexionStep::Submitted(a)
                && a.content == old(self).current.unwrap().code && a.task_id == old(self).task.unwrap().id
                && final(self).state == AgentState::AwaitingReview(a)),
            (old(self).task is None || old(self).current is None) ==> r is Failed,
    {
        let (t, code) = match (&self.task, &self.current) {
            (Some(t), Some(c)) => (t, c),
            _ => {
                return ReflexionStep::Failed(owned("Exhausted reflexion iterations without generating code"));
            },
        };
        if !pass && (self.iteration as u16) + 1 < self.max_reflexion_iterations as u16 {
            let feedback = lines_of(issues, false);
            let p = concat(
                concat(concat(build_prompt(t).as_str(), "\n\nPrevious attempt had the following issues:\n").as_str(), feedback.as_str()).as_str(),
                "\nPlease fix these and provide a new implementation.",
            );
            self.iteration = self.iteration + 1;
            return ReflexionStep::Generate(p);
        }
        let artifact = Artifact::code(t.id.clone(), code.code.clone(), None);
        match clone_state(&self.state).submit_for_review(clone_artifact(&artifact)) {
            Ok(next) => {
                self.state = next;
                ReflexionStep::Submitted(artifact)
            },
            Err(e) => {
                self.state = AgentState::Failed(crate::text::owned("Invalid state for review"));
                ReflexionStep::Failed(e)
            },
        }
    }
}

/// The state of one constrained generation: which attempt it is on and why
/// the last one failed.
pub struct ConstrainedSession {
    pub max_retries: u8,
    pub include_error_in_retry: bool,
    pub attempt: u8,
    pub last_error: Option<String>,
}

/// The prompt of an attempt: the user prompt and the schema instruction,
/// and, on a retry that carries the error, the error of the last attempt.
pub open spec fn attempt_prompt(prompt: Seq<char>, instruction: Seq<char>, attempt: u8, include_error: bool, last_error: Option<String>) -> Seq<char> {
    if attempt == 0 || !include_error || last_error is None {
        prompt + "\n\n"@ + instruction
    } else {
        prompt + "\n\n"@ + instruction + "\n\nPrevious attempt failed with: "@ + last_error.unwrap()@
            + ". Please fix and try again."@
    }
}

impl ConstrainedSession {
    /// A session with the default retries, carrying each error into the next prompt.
    pub fn standard() -> (r: Self)
        ensures
            r.max_retries == DEFAULT_MAX_RETRIES,
            r.include_error_in_retry,
            r.attempt == 0,
            r.last_error is None,
    {
        Self::new(DEFAULT_MAX_RETRIES, true)
    }

    /// A session allowing `max_retries` retries after the first attempt.
    pub fn new(max_retries: u8, include_error_in_retry: bool) -> (r: Self)
        ensures
            r.max_retries == max_retries,
            r.include_error_in_retry == include_error_in_retry,
            r.attempt == 0,
            r.last_error is None,
    {
        ConstrainedSession { max_retries, include_error_in_retry, attempt: 0, last_error: None }
    }

    /// The prompt of the current attempt.
    pub fn user_prompt(&self, prompt: &str, instruction: &str) -> (r: String)
        ensures
            r@ == attempt_prompt(prompt@, instruction@, self.attempt, self.include_error_in_retry, self.last_error),
    {
        let base = concat(concat(prompt, "\n\n").as_str(), instruction);
        if self.attempt == 0 || !self.include_error_in_retry {
            return base;
        }
        match &self.last_error {
            Some(e) => concat(
                concat(concat(base.as_str(), "\n\nPrevious attempt failed with: ").as_str(), e.as_str()).as_str(),
                ". Please fix and try again.",
            ),
            None => base,
        }
    }

    /// Why the current attempt is a retry: a validation failure once an
    /// attempt failed to parse.
    pub fn retry_cause(&self) -> (r: Option<RetryCause>)
        ensures
            self.last_error is Some <==> r matches Some(RetryCause::ValidationFailure),
            self.last_error is None <==> r is None,
    {
        match &self.last_error {
            Some(_) => Some(RetryCause::ValidationFailure),
            None => None,
        }
    }

    /// Records that the current attempt's answer failed to parse with
    /// `error`; returns whether another attempt is allowed.
    pub fn on_parse_failure(&mut self, error: &str) -> (r: bool)
        ensures
            r == (old(self).attempt < old(self).max_retries),
            final(self).last_error matches Some(e) && e@ == "JSON parse error: "@ + error@,
            r ==> final(self).attempt == old(self).attempt + 1,
            !r ==> final(self).attempt == old(self).attempt,
            final(self).max_retries == old(self).max_retries,
            final(self).include_error_in_retry == old(self).include_error_in_retry,
    {
        self.last_error = Some(concat("JSON parse error: ", error));
        if self.attempt < self.max_retries {
            self.attempt = self.attempt + 1;
            true
        } else {
            false
        }
    }
}

} // verus!
