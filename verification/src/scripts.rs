//! Script storage and lookup.
//!
//! A script is an immutable text snapshot identified by a logical name.
//! The data source is a keyed store of script texts that the surrounding
//! program fills from its asset files; scripts are namespaced under a
//! `script.` prefix. The repository resolves a name to an owned snapshot,
//! deliberately decoupling a running dialogue session from later updates
//! to the same key.

use vstd::prelude::*;
use vstd::string::StringExecFns;

verus! {

/// First match for `key` in an association list, newest entry first.
pub open spec fn lookup(entries: Seq<(String, String)>, key: Seq<char>) -> Option<Seq<char>>
    decreases entries.len(),
{
    if entries.len() == 0 {
        None
    } else if entries[0].0@ == key {
        Some(entries[0].1@)
    } else {
        lookup(entries.skip(1), key)
    }
}

/// The store key a script name is filed under.
pub open spec fn script_key(name: Seq<char>) -> Seq<char> {
    "script."@ + name
}

/// An immutable script text snapshot.
#[derive(Debug, Clone)]
pub struct Script(pub String);

impl From<String> for Script {
    fn from(value: String) -> (r: Script) {
        Script(value)
    }
}

impl vstd::std_specs::convert::FromSpecImpl<String> for Script {
    open spec fn obeys_from_spec() -> bool {
        true
    }

    open spec fn from_spec(value: String) -> Script {
        Script(value)
    }
}

/// Keyed store of script texts. The surrounding program loads asset files
/// and feeds their contents in; the store only holds snapshots.
#[derive(Debug)]
pub struct ScriptFileDataSource {
    pub scripts: Vec<(String, String)>,
}

impl Default for ScriptFileDataSource {
    /// An empty store.
    fn default() -> (r: ScriptFileDataSource)
        ensures
            r.scripts@.len() == 0,
    {
        ScriptFileDataSource::new()
    }
}

impl ScriptFileDataSource {
    pub fn new() -> (r: ScriptFileDataSource)
        ensures
            r.scripts@.len() == 0,
    {
        ScriptFileDataSource { scripts: Vec::new() }
    }

    /// Records the text of the script named `episode`, superseding any
    /// earlier text under the same name.
    pub fn insert_script(&mut self, episode: &str, text: String)
        ensures
            final(self).scripts@.len() == old(self).scripts@.len() + 1,
            final(self).scripts@[0].0@ == script_key(episode@),
            final(self).scripts@[0].1 == text,
            final(self).scripts@.skip(1) == old(self).scripts@,
    {
        let mut key = String::from_str("script.");
        key.append(episode);
        self.scripts.insert(0, (key, text));
    }

    /// The current snapshot of the script named `episode`, if the store
    /// holds one.
    pub fn get_script(&self, episode: &str) -> (r: Option<String>)
        ensures
            match r {
                Some(t) => lookup(self.scripts@, script_key(episode@)) == Some(t@),
                None => lookup(self.scripts@, script_key(episode@)) is None,
            },
    {
        let mut key = String::from_str("script.");
        key.append(episode);
        let mut i: usize = 0;
        proof {
            assert(self.scripts@.skip(0) =~= self.scripts@);
        }
        while i < self.scripts.len()
            invariant
                i <= self.scripts@.len(),
                key@ == script_key(episode@),
                lookup(self.scripts@, key@) == lookup(self.scripts@.skip(i as int), key@),
            decreases self.scripts@.len() - i,
        {
            let entry = &self.scripts[i];
            if entry.0 == key {
                proof {
                    assert(self.scripts@.skip(i as int)[0] == self.scripts@[i as int]);
                }
                return Some(entry.1.clone());
            }
            proof {
                assert(self.scripts@.skip(i as int)[0] == self.scripts@[i as int]);
                assert(self.scripts@.skip(i as int).skip(1) =~= self.scripts@.skip(i as int + 1));
            }
            i = i + 1;
        }
        proof {
            assert(self.scripts@.skip(i as int).len() == 0);
        }
        None
    }
}

/// Resolution error: the named script has no snapshot in the store.
#[derive(Debug, Clone, Copy, PartialEq, Eq)]
pub enum ScriptError {
    ResourceNotFound,
}

/// Resolves a logical script name to an owned text snapshot.
#[derive(Debug)]
pub struct ScriptRepository {
    pub source: ScriptFileDataSource,
}

impl ScriptRepository {
    pub fn new(source: ScriptFileDataSource) -> (r: ScriptRepository)
        ensures
            r.source.scripts@ == source.scripts@,
    {
        ScriptRepository { source }
    }

    /// An owned copy of the named script's current snapshot, or
    /// `ResourceNotFound` exactly when the store has no entry for it.
    pub fn get_script(&self, name: &str) -> (r: Result<Script, ScriptError>)
        ensures
            match r {
                Ok(s) => lookup(self.source.scripts@, script_key(name@)) == Some(s.0@),
                Err(e) => lookup(self.source.scripts@, script_key(name@)) is None && e
                    == ScriptError::ResourceNotFound,
            },
    {
        match self.source.get_script(name) {
            Some(text) => Ok(Script(text)),
            None => Err(ScriptError::ResourceNotFound),
        }
    }
}

} // verus!
