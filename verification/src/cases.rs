//! The registry of test cases: what is registered, and when the runner is
//! started on it.
//!
//! A registry is `Pending` until the runner is started on it, and `Executed`
//! from then on. The start is asked for by [`TestCases::run`], or by
//! [`TestCases::end_scope`] when the registry goes out of scope, whichever comes
//! first; nothing starts the runner a second time.

use crate::filter::{
    filter_of, filters_of, include_of, lemma_filter_absent_iff_nothing_contributed,
    lemma_filter_membership, parse_include,
};
use crate::keyed::{
    holds_once, lemma_upsert_again, lemma_upsert_holds_once, lemma_upsert_keeps_keys_distinct,
    lemma_upsert_len,
};
use crate::mode::{parse_mode, resolve_mode, Mode};
use crate::runner::{RunnerSpec, RunnerSpecView};
use crate::schema::{Bin, BinView, CommandStatus};
use crate::text::occurs_in;
use std::time::Duration;
use vstd::prelude::*;

verus! {

/// The cases to execute, the defaults that apply to them, and whether the
/// runner was started on them.
#[derive(Debug)]
pub struct TestCases {
    runner: RunnerSpec,
    has_run: bool,
}

/// What may start the runner on a registry.
pub enum Trigger {
    /// The explicit request.
    Run,
    /// The end of the registry's scope, during unwinding or not.
    ScopeEnd { unwinding: bool },
}

/// A registry as plain mathematical values.
pub struct TestCasesView {
    /// The configuration gathered so far.
    pub runner: RunnerSpecView,
    /// Whether the runner was started: `false` is `Pending`, `true` is
    /// `Executed`.
    pub has_run: bool,
}

impl TestCasesView {
    /// The registry that a process with the arguments `args` starts from.
    pub open spec fn initial(args: Seq<Seq<char>>) -> TestCasesView {
        TestCasesView {
            runner: RunnerSpecView::empty().with_filter(include_of(args)),
            has_run: false,
        }
    }

    /// The registry after `glob` was registered with `expected`.
    pub open spec fn registered(
        self,
        glob: Seq<char>,
        expected: Option<CommandStatus>,
    ) -> TestCasesView {
        TestCasesView { runner: self.runner.with_case(glob, expected), ..self }
    }

    /// The registry with `bin` as the default executable.
    pub open spec fn with_default_bin(self, bin: BinView) -> TestCasesView {
        TestCasesView { runner: self.runner.with_default_bin(Some(bin)), ..self }
    }

    /// The registry with `time` as the default timeout.
    pub open spec fn with_timeout(self, time: Duration) -> TestCasesView {
        TestCasesView { runner: self.runner.with_timeout(Some(time)), ..self }
    }

    /// The registry after the default variable `key` was set to `value`.
    pub open spec fn with_env(self, key: Seq<char>, value: Seq<char>) -> TestCasesView {
        TestCasesView { runner: self.runner.with_env(key, value), ..self }
    }

    /// The registry after a start was asked for explicitly.
    pub open spec fn after_run(self) -> TestCasesView {
        TestCasesView { has_run: true, ..self }
    }

    /// Whether an explicit request starts the runner.
    pub open spec fn run_starts(self) -> bool {
        !self.has_run
    }

    /// Whether the end of the registry's scope starts the runner: only where
    /// nothing started it before, and not while a failure unwinds the stack.
    pub open spec fn scope_end_starts(self, unwinding: bool) -> bool {
        !self.has_run && !unwinding
    }

    /// The registry after its scope ended.
    pub open spec fn after_scope_end(self, unwinding: bool) -> TestCasesView {
        if self.scope_end_starts(unwinding) {
            self.after_run()
        } else {
            self
        }
    }

    /// Whether `trigger` starts the runner.
    pub open spec fn starts(self, trigger: Trigger) -> bool {
        match trigger {
            Trigger::Run => self.run_starts(),
            Trigger::ScopeEnd { unwinding } => self.scope_end_starts(unwinding),
        }
    }

    /// The registry after `trigger`.
    pub open spec fn after(self, trigger: Trigger) -> TestCasesView {
        match trigger {
            Trigger::Run => self.after_run(),
            Trigger::ScopeEnd { unwinding } => self.after_scope_end(unwinding),
        }
    }

    /// How often the runner is started when `triggers` come in turn.
    pub open spec fn starts_in(self, triggers: Seq<Trigger>) -> nat
        decreases triggers.len(),
    {
        if triggers.len() == 0 {
            0
        } else {
            let here: nat = if self.starts(triggers.first()) {
                1
            } else {
                0
            };
            here + self.after(triggers.first()).starts_in(triggers.drop_first())
        }
    }
}

impl View for TestCases {
    type V = TestCasesView;

    closed spec fn view(&self) -> TestCasesView {
        TestCasesView { runner: self.runner@, has_run: self.has_run }
    }
}

impl Default for TestCases {
    /// A pending registry without cases, defaults or filter.
    fn default() -> (cases: Self)
        ensures
            cases@ == (TestCasesView { runner: RunnerSpecView::empty(), has_run: false }),
    {
        TestCases { runner: RunnerSpec::new(), has_run: false }
    }
}

impl TestCases {
    /// A pending registry whose inclusion filter comes from the process
    /// arguments `args`.
    pub fn new(args: &Vec<String>) -> (cases: Self)
        ensures
            cases@ == TestCasesView::initial(args.deep_view()),
    {
        let mut runner = RunnerSpec::new();
        runner.restrict(parse_include(args));
        TestCases { runner, has_run: false }
    }

    /// Registers the cases that `glob` matches, each with the outcome that
    /// its own record expects.
    pub fn case(&mut self, glob: &str) -> (this: &mut Self)
        ensures
            this@ == old(self)@.registered(glob@, None),
            *final(self) == *final(this),
    {
        self.runner.case(glob, None);
        self
    }

    /// Registers the cases that `glob` matches as expected to pass.
    pub fn pass(&mut self, glob: &str) -> (this: &mut Self)
        ensures
            this@ == old(self)@.registered(glob@, Some(CommandStatus::Pass)),
            *final(self) == *final(this),
    {
        self.runner.case(glob, Some(CommandStatus::Pass));
        self
    }

    /// Registers the cases that `glob` matches as expected to fail.
    pub fn fail(&mut self, glob: &str) -> (this: &mut Self)
        ensures
            this@ == old(self)@.registered(glob@, Some(CommandStatus::Fail)),
            *final(self) == *final(this),
    {
        self.runner.case(glob, Some(CommandStatus::Fail));
        self
    }

    /// Registers the cases that `glob` matches as expected to be interrupted.
    pub fn interrupted(&mut self, glob: &str) -> (this: &mut Self)
        ensures
            this@ == old(self)@.registered(glob@, Some(CommandStatus::Interrupted)),
            *final(self) == *final(this),
    {
        self.runner.case(glob, Some(CommandStatus::Interrupted));
        self
    }

    /// Registers the cases that `glob` matches as to be skipped.
    pub fn skip(&mut self, glob: &str) -> (this: &mut Self)
        ensures
            this@ == old(self)@.registered(glob@, Some(CommandStatus::Skip)),
            *final(self) == *final(this),
    {
        self.runner.case(glob, Some(CommandStatus::Skip));
        self
    }

    /// Sets the default executable by its path.
    pub fn default_bin_path(&mut self, path: &str) -> (this: &mut Self)
        ensures
            this@ == old(self)@.with_default_bin(BinView::Path(path@)),
            *final(self) == *final(this),
    {
        let bin = Some(Bin::Path(path.to_owned()));
        self.runner.default_bin(bin);
        self
    }

    /// Sets the default executable by its name.
    pub fn default_bin_name(&mut self, name: &str) -> (this: &mut Self)
        ensures
            this@ == old(self)@.with_default_bin(BinView::Name(name@)),
            *final(self) == *final(this),
    {
        let bin = Some(Bin::Name(name.to_owned()));
        self.runner.default_bin(bin);
        self
    }

    /// Sets the default timeout.
    pub fn timeout(&mut self, time: Duration) -> (this: &mut Self)
        ensures
            this@ == old(self)@.with_timeout(time),
            *final(self) == *final(this),
    {
        self.runner.timeout(Some(time));
        self
    }

    /// Sets a default environment variable.
    pub fn env(&mut self, key: &str, value: &str) -> (this: &mut Self)
        ensures
            this@ == old(self)@.with_env(key@, value@),
            *final(self) == *final(this),
    {
        self.runner.env(key.to_owned(), value.to_owned());
        self
    }

    /// Asks for the runner to be started. `var` is the value of the mode
    /// variable, `None` where it is unset.
    ///
    /// On a pending registry the result is the mode in which the caller is to
    /// start the runner on [`TestCases::runner`], and the registry is
    /// executed from here on, however the cases fare. On an executed
    /// registry nothing is to be done.
    pub fn run(&mut self, var: Option<&str>) -> (start: Option<Mode>)
        ensures
            final(self)@ == old(self)@.after_run(),
            start is Some <==> old(self)@.run_starts(),
            start matches Some(mode) ==> mode@ == resolve_mode(var.deep_view()),
    {
        if self.has_run {
            None
        } else {
            self.has_run = true;
            Some(parse_mode(var))
        }
    }

    /// Tells the registry that its scope ends, while a failure unwinds the
    /// stack or not. The result is as that of [`TestCases::run`]; during
    /// unwinding nothing is started and the registry stays as it is.
    pub fn end_scope(&mut self, unwinding: bool, var: Option<&str>) -> (start: Option<Mode>)
        ensures
            final(self)@ == old(self)@.after_scope_end(unwinding),
            start is Some <==> old(self)@.scope_end_starts(unwinding),
            start matches Some(mode) ==> mode@ == resolve_mode(var.deep_view()),
    {
        if !self.has_run && !unwinding {
            self.run(var)
        } else {
            None
        }
    }

    /// The configuration gathered so far, for the runner to work on.
    pub fn runner(&self) -> (spec: &RunnerSpec)
        ensures
            spec@ == self@.runner,
    {
        &self.runner
    }

    /// Whether the runner was started on this registry.
    pub fn has_run(&self) -> (done: bool)
        ensures
            done == self@.has_run,
    {
        self.has_run
    }
}

/// Of two explicit requests in a row only the first can start the runner,
/// and on a pending registry it does: the second starts nothing and leaves
/// the registry as it is, and the end of the scope starts nothing after it
/// either.
pub proof fn lemma_run_twice_starts_once(cases: TestCasesView, unwinding: bool)
    ensures
        !cases.after_run().run_starts(),
        cases.after_run().after_run() == cases.after_run(),
        !cases.after_run().scope_end_starts(unwinding),
        !cases.has_run ==> cases.run_starts() && cases.starts_in(
            seq![Trigger::Run, Trigger::Run],
        ) == 1,
{
    reveal_with_fuel(TestCasesView::starts_in, 3);
    let triggers = seq![Trigger::Run, Trigger::Run];
    assert(triggers.drop_first().first() == Trigger::Run);
    assert(triggers.drop_first().drop_first().len() == 0);
}

/// Where no request was made, the end of the scope starts the runner, unless
/// a failure is unwinding the stack.
pub proof fn lemma_scope_end_starts_pending(cases: TestCasesView)
    requires
        !cases.has_run,
    ensures
        cases.scope_end_starts(false),
        cases.after_scope_end(false).has_run,
        cases.after_scope_end(false).runner == cases.runner,
{
}

/// While a failure unwinds the stack, the end of the scope starts nothing and
/// leaves the registry as it is.
pub proof fn lemma_scope_end_during_unwinding(cases: TestCasesView)
    ensures
        !cases.scope_end_starts(true),
        cases.after_scope_end(true) == cases,
{
}

/// Whatever triggers come, and in whatever order, the runner is started at
/// most once, and never again on an executed registry.
pub proof fn lemma_at_most_one_start(cases: TestCasesView, triggers: Seq<Trigger>)
    ensures
        cases.starts_in(triggers) <= 1,
        cases.has_run ==> cases.starts_in(triggers) == 0,
    decreases triggers.len(),
{
    if triggers.len() > 0 {
        lemma_at_most_one_start(cases.after(triggers.first()), triggers.drop_first());
    }
}

/// Registering and setting defaults never starts the runner and never makes
/// an executed registry pending again.
pub proof fn lemma_configuring_keeps_state(
    cases: TestCasesView,
    glob: Seq<char>,
    expected: Option<CommandStatus>,
    bin: BinView,
    time: Duration,
    key: Seq<char>,
    value: Seq<char>,
)
    ensures
        cases.registered(glob, expected).has_run == cases.has_run,
        cases.with_default_bin(bin).has_run == cases.has_run,
        cases.with_timeout(time).has_run == cases.has_run,
        cases.with_env(key, value).has_run == cases.has_run,
{
}

/// A new registry holds no pattern and no variable twice, and neither
/// registering nor setting defaults nor a trigger changes that.
pub proof fn lemma_well_formed_throughout(
    cases: TestCasesView,
    args: Seq<Seq<char>>,
    glob: Seq<char>,
    expected: Option<CommandStatus>,
    bin: BinView,
    time: Duration,
    key: Seq<char>,
    value: Seq<char>,
    trigger: Trigger,
)
    requires
        cases.runner.well_formed(),
    ensures
        TestCasesView::initial(args).runner.well_formed(),
        cases.registered(glob, expected).runner.well_formed(),
        cases.with_default_bin(bin).runner.well_formed(),
        cases.with_timeout(time).runner.well_formed(),
        cases.with_env(key, value).runner.well_formed(),
        cases.after(trigger).runner.well_formed(),
{
    lemma_upsert_keeps_keys_distinct(cases.runner.cases, glob, expected);
    lemma_upsert_keeps_keys_distinct(cases.runner.env, key, value);
}

/// Registering a pattern as passing after it was registered plainly leaves
/// one entry for it, expected to pass, where the plain one stood; the list of
/// cases is as long as before and every other entry is unchanged.
pub proof fn lemma_pass_overrides_case(cases: TestCasesView, glob: Seq<char>)
    requires
        cases.runner.well_formed(),
    ensures
        ({
            let plain = cases.registered(glob, None);
            let passing = plain.registered(glob, Some(CommandStatus::Pass));
            &&& passing.runner.well_formed()
            &&& holds_once(passing.runner.cases, glob, Some(CommandStatus::Pass))
            &&& passing.runner.cases.len() == plain.runner.cases.len()
            &&& passing == cases.registered(glob, Some(CommandStatus::Pass))
            &&& forall|i: int|
                0 <= i < plain.runner.cases.len() && (#[trigger] plain.runner.cases[i]).0 != glob
                    ==> passing.runner.cases[i] == plain.runner.cases[i]
        }),
{
    let plain = cases.registered(glob, None);
    lemma_upsert_keeps_keys_distinct(cases.runner.cases, glob, None);
    lemma_upsert_keeps_keys_distinct(plain.runner.cases, glob, Some(CommandStatus::Pass));
    lemma_upsert_holds_once(plain.runner.cases, glob, Some(CommandStatus::Pass));
    lemma_upsert_again(cases.runner.cases, glob, None, Some(CommandStatus::Pass));
    lemma_upsert_len(cases.runner.cases, glob, None);
    lemma_upsert_len(cases.runner.cases, glob, Some(CommandStatus::Pass));
}

/// Every registration of a pattern replaces what the one before it expected:
/// the last one wins, and the pattern stands in the list once.
pub proof fn lemma_last_registration_wins(
    cases: TestCasesView,
    glob: Seq<char>,
    first: Option<CommandStatus>,
    second: Option<CommandStatus>,
)
    requires
        cases.runner.well_formed(),
    ensures
        cases.registered(glob, first).registered(glob, second) == cases.registered(glob, second),
        holds_once(cases.registered(glob, second).runner.cases, glob, second),
        cases.registered(glob, second).runner.well_formed(),
{
    lemma_upsert_again(cases.runner.cases, glob, first, second);
    lemma_upsert_holds_once(cases.runner.cases, glob, second);
    lemma_upsert_keeps_keys_distinct(cases.runner.cases, glob, second);
}

/// Setting a variable again replaces its value: the variable stands among
/// the defaults once, with the value set last.
pub proof fn lemma_last_env_wins(
    cases: TestCasesView,
    key: Seq<char>,
    first: Seq<char>,
    second: Seq<char>,
)
    requires
        cases.runner.well_formed(),
    ensures
        cases.with_env(key, first).with_env(key, second) == cases.with_env(key, second),
        holds_once(cases.with_env(key, second).runner.env, key, second),
        cases.with_env(key, second).runner.well_formed(),
{
    lemma_upsert_again(cases.runner.env, key, first, second);
    lemma_upsert_holds_once(cases.runner.env, key, second);
    lemma_upsert_keeps_keys_distinct(cases.runner.env, key, second);
}

/// The default executable and the default timeout are what was set last.
pub proof fn lemma_last_default_wins(
    cases: TestCasesView,
    first_bin: BinView,
    second_bin: BinView,
    first_time: Duration,
    second_time: Duration,
)
    ensures
        cases.with_default_bin(first_bin).with_default_bin(second_bin) == cases.with_default_bin(
            second_bin,
        ),
        cases.with_timeout(first_time).with_timeout(second_time) == cases.with_timeout(
            second_time,
        ),
{
}

/// Which names the arguments of a process let run: every name where no
/// argument contributes a filter text, else the names in which the text of
/// some argument occurs. Where in the list an argument stands decides
/// nothing.
pub proof fn lemma_names_included_by_arguments(args: Seq<Seq<char>>, name: Seq<char>)
    ensures
        TestCasesView::initial(args).runner.includes(name) <==> {
            ||| forall|i: int| 0 <= i < args.len() ==> filter_of(#[trigger] args[i]) is None
            ||| exists|i: int|
                0 <= i < args.len() && (#[trigger] filter_of(args[i]) matches Some(text)
                    && occurs_in(text, name))
        },
{
    let texts = filters_of(args);
    lemma_filter_absent_iff_nothing_contributed(args);
    if include_of(args) is Some {
        if TestCasesView::initial(args).runner.includes(name) {
            let j = choose|j: int| 0 <= j < texts.len() && occurs_in(#[trigger] texts[j], name);
            assert(texts.contains(texts[j]));
            lemma_filter_membership(args, texts[j]);
            let i = choose|i: int|
                0 <= i < args.len() && filter_of(#[trigger] args[i]) == Some(texts[j]);
            assert(filter_of(args[i]) matches Some(text) && occurs_in(text, name));
        }
        if exists|i: int|
            0 <= i < args.len() && (#[trigger] filter_of(args[i]) matches Some(text) && occurs_in(
                text,
                name,
            )) {
            let i = choose|i: int|
                0 <= i < args.len() && (#[trigger] filter_of(args[i]) matches Some(text)
                    && occurs_in(text, name));
            let text = filter_of(args[i])->0;
            lemma_filter_membership(args, text);
            assert(texts.contains(text));
            let j = choose|j: int| 0 <= j < texts.len() && texts[j] == text;
            assert(occurs_in(texts[j], name));
        }
    }
}

} // verus!
