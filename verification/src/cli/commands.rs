//! The decisions of the `run` command: which front end a file goes to,
//! which model generates code, whether a lock record can be reused, how
//! the generate-and-compile loop proceeds, and how generated text is cut
//! down to code.

use vstd::prelude::*;
use crate::text::{
    find, find_from, find_char_from, trim, chars_of, find_exec, find_from_exec, find_char_exec,
    trim_range_exec, string_from_chars, str_equal, lemma_find_from_bounds, lemma_find_char_bounds,
    occurs_at, skip_ws, back_ws, lemma_skip_ws_bounds, lemma_back_ws_bounds, lemma_trim_idempotent,
};
use crate::lock::manager::LockData;
use crate::context::builder::{
    Context, ContextModel, lookup, body_only_prompt, body_wrapper, ai_prompt, correction_prompt,
};
use crate::text::{utf8_len, char_boundary};
use crate::ai::grammar::RUST_GBNF;
use crate::codegen::template_gen::{template_for, try_template_generate};

verus! {

/// The front end a source file is handled by.
#[derive(Debug, Clone, Copy, PartialEq, Eq)]
pub enum SourceKind {
    /// A blueprint, `.hbp`.
    Blueprint,
    /// An agent script, `.has`.
    AgentScript,
    /// Any other extension, or none.
    Unsupported,
}

/// The front end for a file extension.
pub open spec fn source_kind(ext: Option<Seq<char>>) -> SourceKind {
    match ext {
        Some(e) => if e == "hbp"@ {
            SourceKind::Blueprint
        } else if e == "has"@ {
            SourceKind::AgentScript
        } else {
            SourceKind::Unsupported
        },
        None => SourceKind::Unsupported,
    }
}

/// Picks the front end by the file's extension: `hbp` or `has`.
pub fn classify_extension(ext: Option<&str>) -> (k: SourceKind)
    ensures
        k == source_kind(
            match ext {
                Some(e) => Some(e@),
                None => None,
            },
        ),
{
    match ext {
        Some(e) => if str_equal(e, "hbp") {
            SourceKind::Blueprint
        } else if str_equal(e, "has") {
            SourceKind::AgentScript
        } else {
            SourceKind::Unsupported
        },
        None => SourceKind::Unsupported,
    }
}

/// The model used when neither the command line nor the environment names one.
pub open spec fn default_model() -> Seq<char> {
    "codellama:7b"@
}

/// The model to generate with: the one given on the command line, else the
/// one the environment names, else `codellama:7b`.
pub fn choose_model(model: Option<String>, env_model: Option<String>) -> (r: String)
    ensures
        model matches Some(m) ==> r@ == m@,
        model is None ==> (env_model matches Some(e) ==> r@ == e@),
        model is None && env_model is None ==> r@ == default_model(),
{
    match model {
        Some(m) => m,
        None => match env_model {
            Some(e) => e,
            None => String::from_str("codellama:7b"),
        },
    }
}

/// The code a lock record lets the run reuse: the recorded code, when not
/// forced to regenerate and the record's source hash is the current one.
pub open spec fn reusable_code(force: bool, lock: Option<LockData>, current_hash: Seq<char>) -> Option<
    Seq<char>,
> {
    match lock {
        Some(l) => if !force && l.source_hash@ == current_hash {
            Some(l.generated_code@)
        } else {
            None
        },
        None => None,
    }
}

/// Decides whether the lock record `lock` (if one could be read) spares
/// generating code again.
pub fn cached_code(force: bool, lock: Option<LockData>, current_hash: &str) -> (r: Option<String>)
    ensures
        r matches Some(c) ==> reusable_code(force, lock, current_hash@) == Some(c@),
        r is None ==> reusable_code(force, lock, current_hash@) is None,
{
    if force {
        return None;
    }
    match lock {
        Some(l) => if str_equal(l.source_hash.as_str(), current_hash) {
            Some(l.generated_code)
        } else {
            None
        },
        None => None,
    }
}

/// How a run of an agent script starts.
#[derive(Debug)]
pub enum RunStart {
    /// Run this recorded code as it is: nothing is parsed, generated or
    /// checked, and the lock record stays.
    Reuse(String),
    /// Read the script and generate code for it.
    Generate,
}

/// Decides how a run starts from the lock record that could be read, if
/// any (see [`reusable_code`]).
pub fn run_start(force: bool, lock: Option<LockData>, current_hash: &str) -> (r: RunStart)
    ensures
        reusable_code(force, lock, current_hash@) matches Some(c) ==> (r matches RunStart::Reuse(
            x,
        ) && x@ == c),
        reusable_code(force, lock, current_hash@) is None ==> r is Generate,
{
    match cached_code(force, lock, current_hash) {
        Some(c) => RunStart::Reuse(c),
        None => RunStart::Generate,
    }
}

/// Where the code of a generated run comes from.
#[derive(Debug)]
pub enum CodeOrigin {
    /// The template's code; the model is not asked.
    Template(String),
    /// The model, through the generate-and-compile loop.
    Model,
}

/// The template is tried before the model: the code of the template that
/// matches the flow registered under `stem`, else the model.
pub fn code_origin(ctx: &Context, stem: &str) -> (r: CodeOrigin)
    ensures
        (match lookup(ctx@.flows, stem@) {
            Some(f) => template_for(f),
            None => None,
        }) matches Some(c) ==> (r matches CodeOrigin::Template(x) && x@ == c),
        (match lookup(ctx@.flows, stem@) {
            Some(f) => template_for(f),
            None => None,
        }) is None ==> r is Model,
{
    match ctx.get_flow(stem) {
        Some(f) => match try_template_generate(f) {
            Some(c) => CodeOrigin::Template(c),
            None => CodeOrigin::Model,
        },
        None => CodeOrigin::Model,
    }
}

/// What becomes of the lock record after the final compile check.
#[derive(Debug)]
pub enum LockUpdate {
    /// Write this record.
    Save(LockData),
    /// Remove the record, if there is one.
    Remove,
    /// Leave things as they are.
    Keep,
}

/// The lock update for the final check of `code`, generated for the source
/// with hash `current_hash`: compiled code is recorded with that hash, the
/// time `verified_at` and no passed tests; rejected code removes the
/// record; a compiler that could not be run changes nothing.
pub fn lock_update(outcome: &CheckOutcome, current_hash: String, code: String, verified_at: String) -> (r:
    LockUpdate)
    ensures
        outcome is Compiled ==> (r matches LockUpdate::Save(d) && d.source_hash@ == current_hash@
            && d.generated_code@ == code@ && d.verified_at@ == verified_at@
            && d.passed_tests@.len() == 0),
        outcome is Rejected ==> r is Remove,
        outcome is ToolFailed ==> r is Keep,
{
    match lock_action(outcome) {
        LockAction::Save => LockUpdate::Save(
            LockData {
                source_hash: current_hash,
                generated_code: code,
                verified_at,
                passed_tests: Vec::new(),
            },
        ),
        LockAction::Remove => LockUpdate::Remove,
        LockAction::Keep => LockUpdate::Keep,
    }
}

/// What happens to the lock record after the final compile check.
#[derive(Debug, Clone, Copy, PartialEq, Eq)]
pub enum LockAction {
    /// The code compiled: record it.
    Save,
    /// The code did not compile: remove a stale record.
    Remove,
    /// The compiler could not be run: leave things as they are.
    Keep,
}

/// How a compile check of generated code ended.
#[derive(Debug)]
pub enum CheckOutcome {
    Compiled,
    /// The compiler rejected the code, with the condensed error.
    Rejected(String),
    /// The compiler could not be run.
    ToolFailed,
}

/// The lock action for the outcome of the final compile check.
pub fn lock_action(outcome: &CheckOutcome) -> (a: LockAction)
    ensures
        outcome is Compiled <==> a == LockAction::Save,
        outcome is Rejected <==> a == LockAction::Remove,
        outcome is ToolFailed <==> a == LockAction::Keep,
{
    match outcome {
        CheckOutcome::Compiled => LockAction::Save,
        CheckOutcome::Rejected(_) => LockAction::Remove,
        CheckOutcome::ToolFailed => LockAction::Keep,
    }
}

/// The code part of a model's answer: the text of the first fenced block
/// (from the line after its opening fence to the closing fence, or to the
/// end when it is not closed), or the whole answer when there is no fence;
/// trimmed either way.
pub open spec fn extracted(text: Seq<char>) -> Seq<char> {
    match find(text, "```"@) {
        None => trim(text),
        Some(start) => {
            let after = start + "```"@.len();
            let body = match find_char_from(text, '\n', after) {
                Some(n) => n + 1,
                None => after,
            };
            match find_from(text, "```"@, body) {
                Some(end) => trim(text.subrange(body, end)),
                None => trim(text.subrange(body, text.len() as int)),
            }
        },
    }
}

/// Cuts a model's answer down to the code in it (see [`extracted`]).
pub fn extract_rust_code(text: &str) -> (r: &str)
    ensures
        r@ == extracted(text@),
{
    let v = chars_of(text);
    let n = v.len();
    let (a, b) = match find_exec(&v, "```") {
        None => {
            let r = trim_range_exec(&v, 0, n);
            assert(v@.subrange(0, n as int) =~= v@);
            r
        },
        Some(start) => {
            proof {
                lemma_find_from_bounds(v@, "```"@, 0);
            }
            let fence = chars_of("```");
            let after = start + fence.len();
            let body = match find_char_exec(&v, '\n', after) {
                Some(k) => {
                    proof {
                        lemma_find_char_bounds(v@, '\n', after as int);
                    }
                    k + 1
                },
                None => after,
            };
            match find_from_exec(&v, &fence, body) {
                Some(end) => {
                    proof {
                        lemma_find_from_bounds(v@, fence@, body as int);
                    }
                    trim_range_exec(&v, body, end)
                },
                None => trim_range_exec(&v, body, n),
            }
        },
    };
    text.substring_char(a, b)
}

/// `str::replace`: each occurrence of `pat`, from the left and without
/// overlaps, replaced by `rep` (for a non-empty `pat`), from index `i` on.
pub open spec fn replace_from(s: Seq<char>, pat: Seq<char>, rep: Seq<char>, i: int) -> Seq<char>
    decreases s.len() + 1 - i,
{
    if pat.len() == 0 || i < 0 || i > s.len() {
        Seq::empty()
    } else {
        match find_from(s, pat, i) {
            None => s.subrange(i, s.len() as int),
            Some(k) => {
                proof {
                    lemma_find_from_bounds(s, pat, i);
                }
                s.subrange(i, k) + rep + replace_from(s, pat, rep, k + pat.len())
            },
        }
    }
}

/// The program around a generated body, with each `{BODY}` replaced by it.
pub fn fill_body(wrapper: &str, body: &str) -> (r: String)
    ensures
        r@ == replace_from(wrapper@, "{BODY}"@, body@, 0),
{
    let v = chars_of(wrapper);
    let pat = chars_of("{BODY}");
    proof {
        reveal_strlit("{BODY}");
    }
    let n = v.len();
    let mut out = String::new();
    let mut i: usize = 0;
    let ghost whole = replace_from(v@, pat@, body@, 0);
    loop
        invariant
            i <= n == v@.len(),
            v@ == wrapper@,
            pat@ == "{BODY}"@,
            pat@.len() == 6,
            whole == replace_from(v@, pat@, body@, 0),
            whole == out@ + replace_from(v@, pat@, body@, i as int),
        decreases n + 1 - i,
    {
        proof {
            lemma_find_from_bounds(v@, pat@, i as int);
        }
        match find_from_exec(&v, &pat, i) {
            None => {
                let rest = crate::text::slice_chars(&v, i, n);
                let rs = string_from_chars(&rest);
                let ghost before = out@;
                assert(replace_from(v@, pat@, body@, i as int) == v@.subrange(i as int, n as int));
                out.append(rs.as_str());
                assert(out@ =~= before + replace_from(v@, pat@, body@, i as int));
                return out;
            },
            Some(k) => {
                let piece = crate::text::slice_chars(&v, i, k);
                let ps = string_from_chars(&piece);
                let ghost before = out@;
                out.append(ps.as_str());
                out.append(body);
                assert(before + replace_from(v@, pat@, body@, i as int) =~= out@
                    + replace_from(v@, pat@, body@, k + 6));
                i = k + 6;
            },
        }
    }
}

/// The most generation attempts per run.
pub const MAX_ATTEMPTS: usize = 3;

/// Which prompt an attempt uses.
#[derive(Debug, Clone, Copy, PartialEq, Eq)]
pub enum PromptPlan {
    /// Ask for the function body alone, to be put into the generated program.
    BodyOnly,
    /// Ask for a whole program, with a worked example and a grammar.
    FullFile,
    /// Ask to fix the last attempt, given its error.
    Correction,
}

/// The prompt of attempt `attempt` (counted from 0): the first asks for the
/// body alone when such a prompt can be built, else for a whole program;
/// the second asks for a whole program; later ones ask for a correction.
pub open spec fn plan_for(attempt: nat, body_only_available: bool) -> PromptPlan {
    if attempt == 0 {
        if body_only_available {
            PromptPlan::BodyOnly
        } else {
            PromptPlan::FullFile
        }
    } else if attempt == 1 {
        PromptPlan::FullFile
    } else {
        PromptPlan::Correction
    }
}

/// The prompt of an attempt.
pub fn prompt_plan(attempt: usize, body_only_available: bool) -> (p: PromptPlan)
    ensures
        p == plan_for(attempt as nat, body_only_available),
{
    if attempt == 0 {
        if body_only_available {
            PromptPlan::BodyOnly
        } else {
            PromptPlan::FullFile
        }
    } else if attempt == 1 {
        PromptPlan::FullFile
    } else {
        PromptPlan::Correction
    }
}

/// What the loop does after a compile check.
#[derive(Debug, Clone, Copy, PartialEq, Eq)]
pub enum LoopStep {
    /// The last code compiled: use it.
    Accept,
    /// Generate again.
    Retry,
    /// Stop and use the last code.
    GiveUp,
}

/// Model of a [`CheckOutcome`].
pub enum OutcomeModel {
    Compiled,
    Rejected(Seq<char>),
    ToolFailed,
}

pub open spec fn outcome_model(o: CheckOutcome) -> OutcomeModel {
    match o {
        CheckOutcome::Compiled => OutcomeModel::Compiled,
        CheckOutcome::Rejected(e) => OutcomeModel::Rejected(e@),
        CheckOutcome::ToolFailed => OutcomeModel::ToolFailed,
    }
}

/// Model of a [`RetryLoop`].
pub struct RetryModel {
    /// Attempts made that ended with a rejection.
    pub attempt: nat,
    /// The errors of those attempts, in order.
    pub errors: Seq<Seq<char>>,
    /// The last code generated.
    pub best: Seq<char>,
}

/// The state of the generate-and-compile loop.
pub struct RetryLoop {
    attempt: usize,
    previous_errors: Vec<String>,
    best_code: String,
}

impl View for RetryLoop {
    type V = RetryModel;

    closed spec fn view(&self) -> RetryModel {
        RetryModel {
            attempt: self.attempt as nat,
            errors: self.previous_errors@.map_values(|e: String| e@),
            best: self.best_code@,
        }
    }
}

/// Whether no error occurs twice.
pub open spec fn distinct(es: Seq<Seq<char>>) -> bool {
    forall|i: int, j: int| 0 <= i < j < es.len() ==> es[i] != es[j]
}

/// What every reachable loop state satisfies: one recorded error per
/// rejected attempt, no more than [`MAX_ATTEMPTS`] of them, all different.
pub open spec fn retry_wf(m: RetryModel) -> bool {
    &&& m.attempt == m.errors.len()
    &&& m.attempt <= MAX_ATTEMPTS
    &&& distinct(m.errors)
}

/// One step of the loop on a compile outcome: a compiled attempt is
/// accepted; a failure to run the compiler, or an error seen before, gives
/// up; a new error is recorded, and the loop retries unless that was the
/// last allowed attempt (no error is recorded once all attempts are used).
pub open spec fn retry_step(m: RetryModel, o: OutcomeModel) -> (RetryModel, LoopStep) {
    match o {
        OutcomeModel::Compiled => (m, LoopStep::Accept),
        OutcomeModel::ToolFailed => (m, LoopStep::GiveUp),
        OutcomeModel::Rejected(e) => if m.errors.contains(e) || m.attempt >= MAX_ATTEMPTS {
            (m, LoopStep::GiveUp)
        } else {
            let m2 = RetryModel { attempt: m.attempt + 1, errors: m.errors.push(e), best: m.best };
            (m2, if m2.attempt >= MAX_ATTEMPTS {
                LoopStep::GiveUp
            } else {
                LoopStep::Retry
            })
        },
    }
}

impl RetryLoop {
    /// A loop before its first attempt.
    pub fn new() -> (r: Self)
        ensures
            r@.attempt == 0,
            r@.errors.len() == 0,
            r@.best.len() == 0,
            retry_wf(r@),
    {
        let r = RetryLoop { attempt: 0, previous_errors: Vec::new(), best_code: String::new() };
        assert(r@.errors =~= Seq::<Seq<char>>::empty());
        r
    }

    /// The number of the next attempt, counted from 0.
    pub fn attempt(&self) -> (a: usize)
        ensures
            a == self@.attempt,
    {
        self.attempt
    }

    /// Records the code of the current attempt.
    pub fn record_code(&mut self, code: String)
        ensures
            final(self)@ == (RetryModel { best: code@, ..old(self)@ }),
    {
        self.best_code = code;
    }

    /// The last code generated.
    pub fn best_code(&self) -> (c: &String)
        ensures
            c@ == self@.best,
    {
        &self.best_code
    }

    /// The error a correction prompt reports: the last one recorded, or
    /// `Unknown error`.
    pub fn last_error(&self) -> (e: String)
        ensures
            self@.errors.len() > 0 ==> e@ == self@.errors.last(),
            self@.errors.len() == 0 ==> e@ == "Unknown error"@,
    {
        if self.previous_errors.len() > 0 {
            self.previous_errors[self.previous_errors.len() - 1].clone()
        } else {
            String::from_str("Unknown error")
        }
    }

    fn has_error(&self, e: &String) -> (r: bool)
        ensures
            r == self@.errors.contains(e@),
    {
        let mut i: usize = 0;
        while i < self.previous_errors.len()
            invariant
                i <= self.previous_errors@.len(),
                forall|j: int| 0 <= j < i ==> self.previous_errors@[j]@ != e@,
            decreases self.previous_errors@.len() - i,
        {
            if self.previous_errors[i] == *e {
                assert(self@.errors[i as int] == e@);
                return true;
            }
            i = i + 1;
        }
        false
    }

    /// Takes the outcome of compiling the current attempt and says how the
    /// loop goes on (see [`retry_step`]).
    pub fn after_check(&mut self, outcome: CheckOutcome) -> (r: LoopStep)
        ensures
            (final(self)@, r) == retry_step(old(self)@, outcome_model(outcome)),
            retry_wf(old(self)@) ==> retry_wf(final(self)@),
    {
        match outcome {
            CheckOutcome::Compiled => LoopStep::Accept,
            CheckOutcome::ToolFailed => LoopStep::GiveUp,
            CheckOutcome::Rejected(e) => {
                if self.has_error(&e) {
                    return LoopStep::GiveUp;
                }
                if self.attempt >= MAX_ATTEMPTS {
                    return LoopStep::GiveUp;
                }
                let ghost before = self@;
                let ghost em = e@;
                self.previous_errors.push(e);
                let next = self.attempt + 1;
                assert(self@.errors =~= before.errors.push(em));
                self.attempt = next;
                if next >= MAX_ATTEMPTS {
                    LoopStep::GiveUp
                } else {
                    LoopStep::Retry
                }
            },
        }
    }
}

/// What is sent to the model for one attempt.
pub struct ModelRequest {
    pub prompt: String,
    /// The grammar that constrains the answer, if any.
    pub grammar: Option<&'static str>,
    /// For a request for a function body alone: the program the body goes
    /// into, at its `{BODY}` placeholder.
    pub wrapper: Option<String>,
    /// How a failed request is reported.
    pub failure: &'static str,
}

/// Model of a [`ModelRequest`].
pub struct RequestModel {
    pub prompt: Seq<char>,
    pub grammar: Option<Seq<char>>,
    pub wrapper: Option<Seq<char>>,
    pub failure: Seq<char>,
}

impl View for ModelRequest {
    type V = RequestModel;

    open spec fn view(&self) -> RequestModel {
        RequestModel {
            prompt: self.prompt@,
            grammar: match self.grammar {
                Some(g) => Some(g@),
                None => None,
            },
            wrapper: match self.wrapper {
                Some(w) => Some(w@),
                None => None,
            },
            failure: self.failure@,
        }
    }
}

/// The error a correction prompt reports: the last one recorded, or
/// `Unknown error`.
pub open spec fn last_error_of(m: RetryModel) -> Seq<char> {
    if m.errors.len() > 0 {
        m.errors.last()
    } else {
        "Unknown error"@
    }
}

/// The request of the next attempt, by its plan ([`plan_for`]; a body-only
/// prompt can be built exactly when the flow is registered): the body-only
/// prompt, without grammar, with the program around the body; the full
/// standalone prompt, with the Rust grammar; or a prompt asking to fix the
/// last code given the last error, with the Rust grammar. `None` when the
/// plan needs the flow and no flow is registered under `stem`.
pub open spec fn request_spec(c: ContextModel, stem: Seq<char>, m: RetryModel) -> Option<RequestModel> {
    match plan_for(m.attempt, lookup(c.flows, stem) is Some) {
        PromptPlan::BodyOnly => match lookup(c.flows, stem) {
            Some(f) => Some(
                RequestModel {
                    prompt: body_only_prompt(c, f),
                    grammar: None,
                    wrapper: Some(body_wrapper(f)),
                    failure: "LLM Generation failed"@,
                },
            ),
            None => None,
        },
        PromptPlan::FullFile => match lookup(c.flows, stem) {
            Some(f) => Some(
                RequestModel {
                    prompt: ai_prompt(c, f, true),
                    grammar: Some(RUST_GBNF@),
                    wrapper: None,
                    failure: "LLM Generation failed"@,
                },
            ),
            None => None,
        },
        PromptPlan::Correction => Some(
            RequestModel {
                prompt: correction_prompt(m.best, last_error_of(m)),
                grammar: Some(RUST_GBNF@),
                wrapper: None,
                failure: "LLM Correction failed"@,
            },
        ),
    }
}

/// The request for the loop's next attempt on the flow registered under
/// `stem` (see [`request_spec`]). A correction cuts the last error at byte
/// 500 when it is longer, which must then fall between characters.
pub fn request_for(ctx: &Context, stem: &str, lp: &RetryLoop) -> (r: Option<ModelRequest>)
    requires
        plan_for(lp@.attempt, lookup(ctx@.flows, stem@) is Some) is Correction ==> (utf8_len(
            last_error_of(lp@),
        ) > 500 ==> char_boundary(last_error_of(lp@), 500)),
    ensures
        r matches Some(q) ==> request_spec(ctx@, stem@, lp@) == Some(q@),
        r is None ==> request_spec(ctx@, stem@, lp@) is None,
{
    let body_only = ctx.generate_body_only_prompt(stem);
    match prompt_plan(lp.attempt(), body_only.is_some()) {
        PromptPlan::BodyOnly => match body_only {
            Some((prompt, wrapper)) => Some(
                ModelRequest {
                    prompt,
                    grammar: None,
                    wrapper: Some(wrapper),
                    failure: "LLM Generation failed",
                },
            ),
            None => None,
        },
        PromptPlan::FullFile => match ctx.generate_ai_prompt(stem, true) {
            Some(prompt) => Some(
                ModelRequest {
                    prompt,
                    grammar: Some(RUST_GBNF),
                    wrapper: None,
                    failure: "LLM Generation failed",
                },
            ),
            None => None,
        },
        PromptPlan::Correction => {
            let last = lp.last_error();
            let prompt = Context::build_correction_prompt(lp.best_code().as_str(), last.as_str());
            Some(
                ModelRequest {
                    prompt,
                    grammar: Some(RUST_GBNF),
                    wrapper: None,
                    failure: "LLM Correction failed",
                },
            )
        },
    }
}

/// The code of an attempt from the model's answer: the code cut from the
/// answer ([`extracted`]), put into the program around the body for a
/// body-only request.
pub open spec fn code_from_answer(wrapper: Option<Seq<char>>, answer: Seq<char>) -> Seq<char> {
    match wrapper {
        Some(w) => replace_from(w, "{BODY}"@, extracted(answer), 0),
        None => extracted(answer),
    }
}

/// Turns the model's answer to `req` into the attempt's code.
pub fn attempt_code(req: &ModelRequest, answer: &str) -> (r: String)
    ensures
        r@ == code_from_answer(req@.wrapper, answer@),
{
    let code = extract_rust_code(answer);
    match &req.wrapper {
        Some(w) => fill_body(w.as_str(), code),
        None => {
            let v = chars_of(code);
            string_from_chars(&v)
        },
    }
}

impl RetryLoop {
    /// Takes the model's reply to `req`: an answer becomes the attempt's
    /// code; a failed request ends the run with an error, reported as the
    /// request's failure text, `: `, and the reason, and changes nothing.
    pub fn take_reply(&mut self, req: &ModelRequest, reply: Result<String, String>) -> (r: Result<
        (),
        String,
    >)
        ensures
            reply matches Ok(a) ==> r is Ok && final(self)@ == (RetryModel {
                best: code_from_answer(req@.wrapper, a@),
                ..old(self)@
            }),
            reply matches Err(e) ==> (r matches Err(msg) && msg@ == req@.failure + ": "@ + e@)
                && final(self)@ == old(self)@,
    {
        match reply {
            Ok(a) => {
                let code = attempt_code(req, a.as_str());
                self.record_code(code);
                Ok(())
            },
            Err(e) => {
                let mut msg = String::from_str(req.failure);
                msg.append(": ");
                msg.append(e.as_str());
                Err(msg)
            },
        }
    }
}

/// The answers of the loop to a series of compile outcomes, fed in order.
pub open spec fn drive(m: RetryModel, os: Seq<OutcomeModel>) -> Seq<LoopStep>
    decreases os.len(),
{
    if os.len() == 0 {
        Seq::empty()
    } else {
        let (m2, st) = retry_step(m, os[0]);
        seq![st] + drive(m2, os.drop_first())
    }
}

/// The loop generates at most [`MAX_ATTEMPTS`] times: when every answer to
/// a series of outcomes is `Retry`, the attempts already made plus the
/// series stay below the limit. From a fresh loop, at most two retries
/// follow the first attempt.
pub proof fn lemma_retries_bounded(m: RetryModel, os: Seq<OutcomeModel>)
    requires
        os.len() > 0,
        forall|k: int| 0 <= k < os.len() ==> (#[trigger] drive(m, os)[k]) is Retry,
    ensures
        m.attempt + os.len() < MAX_ATTEMPTS,
    decreases os.len(),
{
    let (m2, st) = retry_step(m, os[0]);
    let rest = os.drop_first();
    lemma_drive_len(m2, rest);
    assert(drive(m, os) == seq![st] + drive(m2, rest));
    assert(drive(m, os)[0] == st);
    if os.len() > 1 {
        assert forall|k: int| 0 <= k < rest.len() implies (#[trigger] drive(m2, rest)[k]) is Retry by {
            assert(drive(m, os)[k + 1] == drive(m2, rest)[k]);
        }
        lemma_retries_bounded(m2, rest);
    }
}

proof fn lemma_drive_len(m: RetryModel, os: Seq<OutcomeModel>)
    ensures
        drive(m, os).len() == os.len(),
    decreases os.len(),
{
    if os.len() > 0 {
        let (m2, st) = retry_step(m, os[0]);
        lemma_drive_len(m2, os.drop_first());
    }
}

/// An error that an earlier attempt already produced ends the loop, and
/// compiled code is accepted; neither changes the state.
pub proof fn lemma_repeated_error_gives_up(m: RetryModel, e: Seq<char>)
    requires
        m.errors.contains(e),
    ensures
        retry_step(m, OutcomeModel::Rejected(e)) == (m, LoopStep::GiveUp),
        retry_step(m, OutcomeModel::Compiled) == (m, LoopStep::Accept),
{
}

/// No occurrence of `pat` in a sub-range when none lies inside it in `s`.
pub proof fn lemma_no_occurrence_in_range(s: Seq<char>, pat: Seq<char>, lo: int, hi: int)
    requires
        0 <= lo <= hi <= s.len(),
        pat.len() > 0,
        forall|j: int| lo <= j < hi ==> !occurs_at(s, pat, j),
    ensures
        forall|j: int| 0 <= j ==> !occurs_at(s.subrange(lo, hi), pat, j),
{
    assert forall|j: int| 0 <= j implies !occurs_at(s.subrange(lo, hi), pat, j) by {
        if occurs_at(s.subrange(lo, hi), pat, j) {
            assert(s.subrange(lo, hi).subrange(j, j + pat.len()) =~= s.subrange(
                lo + j,
                lo + j + pat.len(),
            ));
            assert(occurs_at(s, pat, lo + j));
        }
    }
}

/// No occurrence of `pat` in `trim(s)` when there is none in `s`.
pub proof fn lemma_no_occurrence_trim(s: Seq<char>, pat: Seq<char>)
    requires
        pat.len() > 0,
        forall|j: int| 0 <= j ==> !occurs_at(s, pat, j),
    ensures
        forall|j: int| 0 <= j ==> !occurs_at(trim(s), pat, j),
{
    let a = skip_ws(s, 0);
    lemma_skip_ws_bounds(s, 0);
    lemma_back_ws_bounds(s, a, s.len() as int);
    lemma_no_occurrence_in_range(s, pat, a, back_ws(s, a, s.len() as int));
}

/// The code cut from an answer holds no fence.
pub proof fn lemma_extracted_unfenced(text: Seq<char>)
    ensures
        find(extracted(text), "```"@) is None,
{
    reveal_strlit("```");
    let pat = "```"@;
    lemma_find_from_bounds(text, pat, 0);
    match find(text, pat) {
        None => {
            lemma_no_occurrence_trim(text, pat);
        },
        Some(start) => {
            let after = start + pat.len();
            lemma_find_char_bounds(text, '\n', after);
            let body = match find_char_from(text, '\n', after) {
                Some(n) => n + 1,
                None => after,
            };
            lemma_find_from_bounds(text, pat, body);
            match find_from(text, pat, body) {
                Some(end) => {
                    lemma_no_occurrence_in_range(text, pat, body, end);
                    lemma_no_occurrence_trim(text.subrange(body, end), pat);
                },
                None => {
                    lemma_no_occurrence_in_range(text, pat, body, text.len() as int);
                    lemma_no_occurrence_trim(text.subrange(body, text.len() as int), pat);
                },
            }
        },
    }
    lemma_find_from_bounds(extracted(text), pat, 0);
}

/// Cutting an answer down to code a second time changes nothing.
pub proof fn lemma_extract_idempotent(text: Seq<char>)
    ensures
        extracted(extracted(text)) == extracted(text),
{
    lemma_extracted_unfenced(text);
    let pat = "```"@;
    lemma_find_from_bounds(text, pat, 0);
    match find(text, pat) {
        None => {
            lemma_trim_idempotent(text);
        },
        Some(start) => {
            let after = start + pat.len();
            let body = match find_char_from(text, '\n', after) {
                Some(n) => n + 1,
                None => after,
            };
            match find_from(text, pat, body) {
                Some(end) => {
                    lemma_trim_idempotent(text.subrange(body, end));
                },
                None => {
                    lemma_trim_idempotent(text.subrange(body, text.len() as int));
                },
            }
        },
    }
}

} // verus!
