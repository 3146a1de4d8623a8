use vstd::prelude::*;
use crate::config_file::{parse_regexes, ConfigError};

verus! {

/// The characters of each string of a sequence.
pub open spec fn strs(v: Seq<String>) -> Seq<Seq<char>> {
    Seq::new(v.len(), |i: int| v[i]@)
}

/// Copies a list of strings.
pub fn clone_strings(v: &Vec<String>) -> (r: Vec<String>)
    ensures
        strs(r@) == strs(v@),
{
    let mut r: Vec<String> = Vec::new();
    let mut i: usize = 0;
    while i < v.len()
        invariant
            i <= v.len(),
            r@.len() == i,
            forall|j: int| 0 <= j < i ==> r@[j]@ == v@[j]@,
        decreases v.len() - i,
    {
        r.push(v[i].clone());
        i += 1;
    }
    assert(strs(r@) =~= strs(v@));
    r
}

/// Mathematical model of [`Auto`].
pub struct AutoView {
    pub watch: Option<bool>,
    pub git: Option<bool>,
    pub path: Seq<Seq<char>>,
    pub regex: Seq<Seq<char>>,
    pub always: Option<bool>,
}

impl AutoView {
    /// Whether any of the three switches is on.
    pub open spec fn enabled(self) -> bool {
        self.watch == Some(true) || self.git == Some(true) || self.always == Some(true)
    }
}

/// Automation rules that determine when commands should execute.
#[derive(Debug)]
pub struct Auto {
    pub watch: Option<bool>,
    pub git: Option<bool>,
    pub path: Vec<String>,
    pub regex: Vec<String>,
    pub always: Option<bool>,
}

impl View for Auto {
    type V = AutoView;

    open spec fn view(&self) -> AutoView {
        AutoView {
            watch: self.watch,
            git: self.git,
            path: strs(self.path@),
            regex: strs(self.regex@),
            always: self.always,
        }
    }
}

impl Clone for Auto {
    fn clone(&self) -> (r: Self)
        ensures
            r@ == self@,
    {
        Auto {
            watch: self.watch,
            git: self.git,
            path: clone_strings(&self.path),
            regex: clone_strings(&self.regex),
            always: self.always,
        }
    }
}

impl Default for Auto {
    fn default() -> (r: Self)
        ensures
            r@ == (AutoView {
                watch: None,
                git: None,
                path: Seq::empty(),
                regex: Seq::empty(),
                always: None,
            }),
    {
        let r = Auto { watch: None, git: None, path: Vec::new(), regex: Vec::new(), always: None };
        assert(strs(r.path@) =~= Seq::<Seq<char>>::empty());
        assert(strs(r.regex@) =~= Seq::<Seq<char>>::empty());
        r
    }
}

impl Auto {
    /// Builds automation rules, checking each pattern; the same
    /// as [`Auto::create`].
    pub fn new(
        watch: Option<bool>,
        git: Option<bool>,
        path: Vec<String>,
        regex: Vec<String>,
        always: Option<bool>,
    ) -> (r: Result<Self, ConfigError>)
        ensures
            crate::config_file::patterns_outcome(strs(regex@), r is Ok),
            match r {
                Ok(auto) => auto@ == (AutoView {
                    watch,
                    git,
                    path: strs(path@),
                    regex: strs(regex@),
                    always,
                }),
                Err(e) => crate::config_file::first_bad_pattern(strs(regex@), e@),
            },
    {
        Auto::create(watch, git, path, regex, always)
    }

    /// Builds automation rules, checking each pattern.
    ///
    /// Fails on the first pattern that is refused, with that pattern.
    pub fn create(
        watch: Option<bool>,
        git: Option<bool>,
        path: Vec<String>,
        regex: Vec<String>,
        always: Option<bool>,
    ) -> (r: Result<Self, ConfigError>)
        ensures
            crate::config_file::patterns_outcome(strs(regex@), r is Ok),
            match r {
                Ok(auto) => auto@ == (AutoView {
                    watch,
                    git,
                    path: strs(path@),
                    regex: strs(regex@),
                    always,
                }),
                Err(e) => crate::config_file::first_bad_pattern(strs(regex@), e@),
            },
    {
        match parse_regexes(regex) {
            Ok(regex) => Ok(Auto { watch, git, path, always, regex }),
            Err(e) => Err(e),
        }
    }
}

} // verus!
