//! The configuration that reaches the runner: the registered cases, the
//! defaults that apply to each of them, and the inclusion filter.

use crate::keyed::{distinct_keys, has_key, upsert, KeyedList};
use crate::schema::{Bin, BinView, CommandStatus};
use crate::text::{chars_of, occurs, occurs_in};
use std::time::Duration;
use vstd::prelude::*;

verus! {

/// What the runner is to work on.
#[derive(Debug)]
pub struct RunnerSpec {
    cases: KeyedList<Option<CommandStatus>>,
    filter: Option<Vec<String>>,
    default_bin: Option<Bin>,
    timeout: Option<Duration>,
    env: KeyedList<String>,
}

/// The configuration as plain mathematical values.
pub struct RunnerSpecView {
    /// The registered patterns in the order in which they first came, each
    /// with the outcome that overrides its cases' own records, if any.
    pub cases: Seq<(Seq<char>, Option<CommandStatus>)>,
    /// The texts of which a case's name must contain one to be executed;
    /// `None` lets every case run.
    pub filter: Option<Seq<Seq<char>>>,
    /// The executable of a case that names none.
    pub default_bin: Option<BinView>,
    /// The time allowed to a case that sets none.
    pub timeout: Option<Duration>,
    /// The environment variables that every case receives, in the order in
    /// which their names first came.
    pub env: Seq<(Seq<char>, Seq<char>)>,
}

impl RunnerSpecView {
    /// The configuration before anything was registered or set.
    pub open spec fn empty() -> RunnerSpecView {
        RunnerSpecView {
            cases: Seq::empty(),
            filter: None,
            default_bin: None,
            timeout: None,
            env: Seq::empty(),
        }
    }

    /// No pattern is registered twice and no variable is set twice.
    pub open spec fn well_formed(self) -> bool {
        distinct_keys(self.cases) && distinct_keys(self.env)
    }

    /// The configuration after `glob` was registered with `expected`. A
    /// pattern that was registered before keeps its place.
    pub open spec fn with_case(self, glob: Seq<char>, expected: Option<CommandStatus>) -> Self {
        RunnerSpecView { cases: upsert(self.cases, glob, expected), ..self }
    }

    /// The configuration with another inclusion filter.
    pub open spec fn with_filter(self, filter: Option<Seq<Seq<char>>>) -> Self {
        RunnerSpecView { filter, ..self }
    }

    /// The configuration with another default executable.
    pub open spec fn with_default_bin(self, bin: Option<BinView>) -> Self {
        RunnerSpecView { default_bin: bin, ..self }
    }

    /// The configuration with another default timeout.
    pub open spec fn with_timeout(self, time: Option<Duration>) -> Self {
        RunnerSpecView { timeout: time, ..self }
    }

    /// The configuration after the variable `key` was set to `value`. A
    /// variable that was set before keeps its place.
    pub open spec fn with_env(self, key: Seq<char>, value: Seq<char>) -> Self {
        RunnerSpecView { env: upsert(self.env, key, value), ..self }
    }

    /// Whether a case of the name `name` is to be executed: every case where
    /// there is no filter, else those whose name contains one of its texts.
    pub open spec fn includes(self, name: Seq<char>) -> bool {
        match self.filter {
            None => true,
            Some(texts) => exists|i: int|
                0 <= i < texts.len() && occurs_in(#[trigger] texts[i], name),
        }
    }
}

/// The variables with each value as its character sequence.
pub open spec fn values_viewed(env: Seq<(Seq<char>, String)>) -> Seq<(Seq<char>, Seq<char>)> {
    env.map_values(|entry: (Seq<char>, String)| (entry.0, entry.1@))
}

impl View for RunnerSpec {
    type V = RunnerSpecView;

    closed spec fn view(&self) -> RunnerSpecView {
        RunnerSpecView {
            cases: self.cases@,
            filter: self.filter.deep_view(),
            default_bin: self.default_bin.deep_view(),
            timeout: self.timeout,
            env: values_viewed(self.env@),
        }
    }
}

impl RunnerSpec {
    /// A configuration without cases, defaults or filter.
    pub fn new() -> (spec: Self)
        ensures
            spec@ == RunnerSpecView::empty(),
            spec@.well_formed(),
    {
        let spec = RunnerSpec {
            cases: KeyedList::new(),
            filter: None,
            default_bin: None,
            timeout: None,
            env: KeyedList::new(),
        };
        assert(spec@.env =~= Seq::empty());
        spec
    }

    /// Registers the cases that `glob` matches, with `expected` as their
    /// outcome where it is given. Registering a pattern again replaces what
    /// was expected of it.
    pub fn case(&mut self, glob: &str, expected: Option<CommandStatus>)
        ensures
            final(self)@ == old(self)@.with_case(glob@, expected),
    {
        self.cases.insert(glob.to_owned(), expected);
    }

    /// Replaces the inclusion filter.
    pub fn restrict(&mut self, filter: Option<Vec<String>>)
        ensures
            final(self)@ == old(self)@.with_filter(filter.deep_view()),
    {
        self.filter = filter;
    }

    /// Replaces the default executable.
    pub fn default_bin(&mut self, bin: Option<Bin>)
        ensures
            final(self)@ == old(self)@.with_default_bin(bin.deep_view()),
    {
        self.default_bin = bin;
    }

    /// Replaces the default timeout.
    pub fn timeout(&mut self, time: Option<Duration>)
        ensures
            final(self)@ == old(self)@.with_timeout(time),
    {
        self.timeout = time;
    }

    /// Sets a default environment variable. Setting a variable again replaces
    /// its value.
    pub fn env(&mut self, key: String, value: String)
        ensures
            final(self)@ == old(self)@.with_env(key@, value@),
    {
        proof {
            lemma_values_viewed_upsert(self.env@, key@, value);
        }
        self.env.insert(key, value);
    }

    /// Whether the inclusion filter lets a case of the name `name` run.
    pub fn includes(&self, name: &str) -> (included: bool)
        ensures
            included == self@.includes(name@),
    {
        match &self.filter {
            None => true,
            Some(texts) => {
                let ghost all = texts.deep_view();
                let whole = chars_of(name);
                let mut i: usize = 0;
                while i < texts.len()
                    invariant
                        i <= texts.len(),
                        all == texts.deep_view(),
                        self@.filter == Some(all),
                        all.len() == texts.len(),
                        whole@ == name@,
                        forall|j: int| 0 <= j < i ==> !occurs_in(#[trigger] all[j], name@),
                    decreases texts.len() - i,
                {
                    if occurs(&whole, &chars_of(texts[i].as_str())) {
                        assert(all[i as int] == texts[i as int]@);
                        assert(self@.filter matches Some(listed) && occurs_in(
                            listed[i as int],
                            name@,
                        ));
                        return true;
                    }
                    i += 1;
                }
                false
            },
        }
    }

    /// The registered patterns, each with the outcome expected of its cases.
    pub fn cases(&self) -> (cases: &KeyedList<Option<CommandStatus>>)
        ensures
            cases@ == self@.cases,
            self@.well_formed(),
    {
        proof {
            use_type_invariant(&self.cases);
            use_type_invariant(&self.env);
            lemma_values_viewed_distinct(self.env@);
        }
        &self.cases
    }

    /// The default environment variables.
    pub fn variables(&self) -> (env: &KeyedList<String>)
        ensures
            values_viewed(env@) == self@.env,
            self@.well_formed(),
    {
        proof {
            use_type_invariant(&self.cases);
            use_type_invariant(&self.env);
            lemma_values_viewed_distinct(self.env@);
        }
        &self.env
    }

    /// The inclusion filter.
    pub fn filter(&self) -> (filter: Option<&Vec<String>>)
        ensures
            filter.deep_view() == self@.filter,
    {
        self.filter.as_ref()
    }

    /// The default executable.
    pub fn bin(&self) -> (bin: Option<&Bin>)
        ensures
            bin.deep_view() == self@.default_bin,
    {
        self.default_bin.as_ref()
    }

    /// The default timeout.
    pub fn time_limit(&self) -> (time: Option<Duration>)
        ensures
            time == self@.timeout,
    {
        self.timeout
    }
}

/// Viewing the values changes no key.
proof fn lemma_values_viewed_distinct(env: Seq<(Seq<char>, String)>)
    requires
        distinct_keys(env),
    ensures
        distinct_keys(values_viewed(env)),
{
    let viewed = values_viewed(env);
    assert forall|i: int, j: int| 0 <= i < j < viewed.len() implies (#[trigger] viewed[i]).0 != (
    #[trigger] viewed[j]).0 by {
        assert(env[i].0 != env[j].0);
    }
}

/// Viewing the values commutes with putting a value under a key.
proof fn lemma_values_viewed_upsert(env: Seq<(Seq<char>, String)>, key: Seq<char>, value: String)
    ensures
        values_viewed(upsert(env, key, value)) == upsert(values_viewed(env), key, value@),
{
    let viewed = values_viewed(env);
    assert(has_key(env, key) <==> has_key(viewed, key)) by {
        if has_key(env, key) {
            let i = choose|i: int| 0 <= i < env.len() && (#[trigger] env[i]).0 == key;
            assert(viewed[i].0 == key);
        }
        if has_key(viewed, key) {
            let i = choose|i: int| 0 <= i < viewed.len() && (#[trigger] viewed[i]).0 == key;
            assert(env[i].0 == key);
        }
    }
    assert(values_viewed(upsert(env, key, value)) =~= upsert(viewed, key, value@));
}

} // verus!
