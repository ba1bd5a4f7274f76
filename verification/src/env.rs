//! The process environment, as the values a decision reads out of it.
//!
//! Held as a list of names and values so the ladders that read it are
//! functions of it, and so a test can hand one over without a process.

use vstd::prelude::*;

use crate::text::{chars_of, lower, lowered, same, trim, trimmed};

verus! {

/// Names and what they are set to. The first entry under a name wins, which is
/// what a process environment gives when it has each name once.
#[derive(Debug, Clone, Default)]
pub struct Environment {
    /// Every variable, in the order it was handed over.
    pub vars: Vec<(String, String)>,
}

/// What the first of `vars` named `name` is set to.
pub open spec fn spec_value_of(vars: Seq<(String, String)>, name: Seq<char>) -> Option<Seq<char>>
    decreases vars.len(),
{
    if vars.len() == 0 {
        None
    } else if vars[0].0@ == name {
        Some(vars[0].1@)
    } else {
        spec_value_of(vars.drop_first(), name)
    }
}

impl Environment {
    /// What `name` is set to, or nothing where it is unset.
    pub open spec fn spec_lookup(&self, name: Seq<char>) -> Option<Seq<char>> {
        spec_value_of(self.vars@, name)
    }

    /// An environment with nothing set.
    pub fn empty() -> (r: Self)
        ensures
            r.vars@.len() == 0,
            forall|name: Seq<char>| r.spec_lookup(name).is_none(),
    {
        Environment { vars: Vec::new() }
    }

    /// The same environment with `name` set to `value` ahead of anything it held.
    pub fn with(self, name: &str, value: &str) -> (r: Self)
        ensures
            r.spec_lookup(name@) == Some(value@),
            forall|other: Seq<char>| other != name@ ==> r.spec_lookup(other) == self.spec_lookup(other),
    {
        let mut vars: Vec<(String, String)> = Vec::new();
        vars.push((string_from(name), string_from(value)));
        let mut i: usize = 0;
        while i < self.vars.len()
            invariant
                i <= self.vars@.len(),
                vars@.len() == i + 1,
                vars@[0].0@ == name@,
                vars@[0].1@ == value@,
                forall|j: int| 0 < j <= i ==> vars@[j] == self.vars@[j - 1],
            decreases self.vars@.len() - i,
        {
            let (n, v) = &self.vars[i];
            vars.push((n.clone(), v.clone()));
            i += 1;
        }
        assert(vars@.drop_first() =~= self.vars@);
        Environment { vars }
    }

    /// What `name` is set to, or `None` where it is not set.
    pub fn lookup(&self, name: &str) -> (r: Option<String>)
        ensures
            r matches Some(v) ==> self.spec_lookup(name@) == Some(v@),
            r is None ==> self.spec_lookup(name@) is None,
    {
        let wanted = chars_of(name);
        let mut i: usize = 0;
        assert(self.vars@.subrange(0, self.vars@.len() as int) =~= self.vars@);
        while i < self.vars.len()
            invariant
                i <= self.vars@.len(),
                wanted@ == name@,
                self.spec_lookup(name@) == spec_value_of(
                    self.vars@.subrange(i as int, self.vars@.len() as int),
                    name@,
                ),
            decreases self.vars@.len() - i,
        {
            let key = chars_of(self.vars[i].0.as_str());
            let ghost rest = self.vars@.subrange(i as int, self.vars@.len() as int);
            assert(rest.drop_first() =~= self.vars@.subrange(i + 1, self.vars@.len() as int));
            if same(key.as_slice(), wanted.as_slice()) {
                return Some(self.vars[i].1.clone());
            }
            i += 1;
        }
        None
    }

    /// Whether `name` is set at all, empty or not.
    pub fn is_set(&self, name: &str) -> (r: bool)
        ensures
            r == self.spec_lookup(name@).is_some(),
    {
        self.lookup(name).is_some()
    }

    /// What `name` is set to as characters, empty where it is unset.
    pub fn chars(&self, name: &str) -> (r: Vec<char>)
        ensures
            r@ == (match self.spec_lookup(name@) {
                Some(v) => v,
                None => Seq::<char>::empty(),
            }),
    {
        match self.lookup(name) {
            Some(v) => chars_of(v.as_str()),
            None => Vec::new(),
        }
    }
}

/// An owned copy of `text`.
pub fn string_from(text: &str) -> (r: String)
    ensures
        r@ == text@,
{
    text.to_owned()
}

/// A rung-override variable's value: what was set, and it trimmed and folded,
/// or nothing where it is unset or blank.
pub open spec fn spec_override(env: Environment, var: Seq<char>) -> Option<(Seq<char>, Seq<char>)> {
    match env.spec_lookup(var) {
        Some(raw) => if trim(raw).len() == 0 {
            None
        } else {
            Some((raw, lower(trim(raw))))
        },
        None => None,
    }
}

/// What a rung-override variable was set to, raw and normalised, or nothing.
/// Set but blank is unset: the PowerShell way of clearing a variable leaves it
/// set to nothing.
pub fn override_of(env: &Environment, var: &str) -> (r: Option<(String, Vec<char>)>)
    ensures
        r matches Some((raw, norm)) ==> spec_override(*env, var@) == Some((raw@, norm@)),
        r is None ==> spec_override(*env, var@) is None,
{
    let raw = env.lookup(var)?;
    let chars = chars_of(raw.as_str());
    let trimmed = trimmed(chars.as_slice());
    if trimmed.len() == 0 {
        return None;
    }
    let normalised = lowered(trimmed.as_slice());
    Some((raw, normalised))
}

} // verus!
