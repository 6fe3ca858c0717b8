//! What the templates of a configuration can refer to while it is read.
use hyper::HeaderMap;
use vstd::prelude::*;

use crate::string_map::StringMap;
use crate::text;
use crate::text::views;
use crate::EnvIO;

verus! {

/// The environment, the variables of the configuration and the headers to send.
pub struct ConfigReaderContext<'a, E: EnvIO> {
    pub env: E,
    pub vars: &'a StringMap<String>,
    pub headers: HeaderMap,
}

/// Where the value at a path comes from.
pub enum Source<'p> {
    /// There is none.
    Nowhere,
    /// It is this variable of the configuration.
    Variable(String),
    /// It is the environment variable of this name, if that is set.
    Environment(&'p str),
}

/// What a [`Source`] holds.
pub enum SourceModel {
    Nowhere,
    Variable(Seq<char>),
    Environment(Seq<char>),
}

impl<'p> View for Source<'p> {
    type V = SourceModel;

    open spec fn view(&self) -> SourceModel {
        match self {
            Source::Nowhere => SourceModel::Nowhere,
            Source::Variable(value) => SourceModel::Variable(value@),
            Source::Environment(name) => SourceModel::Environment(name@),
        }
    }
}

/// Whether a path is one that can be looked up: `vars` and `env` are followed by a name.
pub open spec fn is_complete(path: Seq<Seq<char>>) -> bool {
    path.len() == 1 ==> path[0] != "vars"@ && path[0] != "env"@
}

/// Where the value at a path comes from, given the variables.
pub open spec fn source_of(path: Seq<Seq<char>>, vars: Map<Seq<char>, String>) -> SourceModel {
    if path.len() < 2 {
        SourceModel::Nowhere
    } else if path[0] == "vars"@ {
        if vars.contains_key(path[1]) {
            SourceModel::Variable(vars[path[1]]@)
        } else {
            SourceModel::Nowhere
        }
    } else if path[0] == "env"@ {
        SourceModel::Environment(path[1])
    } else {
        SourceModel::Nowhere
    }
}

impl<'a, E: EnvIO> ConfigReaderContext<'a, E> {
    /// Finds where the value at a path comes from.
    pub fn source<'p>(&self, path: &'p [String]) -> (res: Source<'p>)
        requires
            is_complete(views(path@)),
        ensures
            res@ == source_of(views(path@), self.vars@),
    {
        let ghost keys = views(path@);
        if path.len() < 2 {
            return Source::Nowhere;
        }
        proof {
            assert(keys[0] == path@[0]@);
            assert(keys[1] == path@[1]@);
        }
        let name = path[1].as_str();
        if text::same(path[0].as_str(), "vars") {
            match self.vars.get(name) {
                Some(value) => Source::Variable(value.clone()),
                None => Source::Nowhere,
            }
        } else if text::same(path[0].as_str(), "env") {
            Source::Environment(name)
        } else {
            Source::Nowhere
        }
    }

    /// The string at a path: a variable of the configuration or of the environment. What the
    /// environment holds is what it gives for the name.
    pub fn path_string(&self, path: &[String]) -> (res: Option<String>)
        requires
            is_complete(views(path@)),
        ensures
            match source_of(views(path@), self.vars@) {
                SourceModel::Nowhere => res is None,
                SourceModel::Variable(value) => res matches Some(s) && s@ == value,
                SourceModel::Environment(name) => exists|key: &str|
                    key@ == name && #[trigger] call_ensures(E::get, (&self.env, key), res),
            },
    {
        match self.source(path) {
            Source::Nowhere => None,
            Source::Variable(value) => Some(value),
            Source::Environment(name) => self.env.get(name),
        }
    }

    /// The headers to send.
    pub fn headers(&self) -> (res: &HeaderMap)
        ensures
            *res == self.headers,
    {
        &self.headers
    }
}

/// Behind `vars` a name stands for the variable of the configuration, where there is one, and behind
/// `env` for the variable of the environment. What follows the name does not matter, and any other
/// path leads nowhere.
pub proof fn law_paths_name_variables(
    path: Seq<Seq<char>>,
    name: Seq<char>,
    more: Seq<Seq<char>>,
    vars: Map<Seq<char>, String>,
)
    ensures
        source_of(seq!["vars"@, name] + more, vars) == if vars.contains_key(name) {
            SourceModel::Variable(vars[name]@)
        } else {
            SourceModel::Nowhere
        },
        source_of(seq!["env"@, name] + more, vars) == SourceModel::Environment(name),
        path.len() == 0 || (path[0] != "vars"@ && path[0] != "env"@) ==> source_of(path, vars)
            == SourceModel::Nowhere,
{
    reveal_strlit("vars");
    reveal_strlit("env");
    assert("vars"@.len() != "env"@.len());
    let a = seq!["vars"@, name] + more;
    assert(a[0] == "vars"@ && a[1] == name);
    let b = seq!["env"@, name] + more;
    assert(b[0] == "env"@ && b[1] == name);
}

} // verus!
