//! The engines that the server can be started with.

use vstd::prelude::*;
use vstd::string::StringExecFns;

verus! {

/// The lower-case form of a string, as `str::to_lowercase` gives it.
pub uninterp spec fn lowercase(s: Seq<char>) -> Seq<char>;

/// `str::to_lowercase`: the string with each character in lower case.
#[verifier::external_body]
fn to_lowercase(s: &str) -> (lower: String)
    ensures
        lower@ == lowercase(s@),
{
    s.to_lowercase()
}

/// The text that refuses a name that is no engine's.
pub open spec fn unknown_engine(name: Seq<char>) -> Seq<char> {
    "unknown engine `"@ + name + "`"@
}

fn unknown_engine_text(name: &str) -> (text: String)
    ensures
        text@ == unknown_engine(name@),
{
    let mut text = "unknown engine `".to_owned();
    text.append(name);
    text.append("`");
    text
}

fn same_text(a: &str, b: &str) -> (same: bool)
    ensures
        same == (a@ == b@),
{
    a.to_owned() == b.to_owned()
}

/// The engine of the library's own server.
#[derive(Clone, Debug)]
pub enum EngineOpt {
    /// The log-structured store of this library.
    KVS,
}

impl Default for EngineOpt {
    fn default() -> (engine: EngineOpt)
        ensures
            engine is KVS,
    {
        EngineOpt::KVS
    }
}

impl EngineOpt {
    /// The name of the engine.
    pub open spec fn name(self) -> Seq<char> {
        "kvs"@
    }

    /// The text, as a string.
    pub fn to_string(&self) -> (text: String)
        ensures
            text@ == self.name(),
    {
        "kvs".to_owned()
    }

    /// The engine that a name in lower case names.
    pub fn from_lowercase(name: &str) -> (r: Result<EngineOpt, String>)
        ensures
            match r {
                Ok(engine) => name@ == engine.name(),
                Err(text) => name@ != "kvs"@ && text@ == unknown_engine(name@),
            },
    {
        if same_text(name, "kvs") {
            Ok(EngineOpt::KVS)
        } else {
            Err(unknown_engine_text(name))
        }
    }
}

impl std::str::FromStr for EngineOpt {
    type Err = String;

    /// The engine that a name names, in whatever case it is written.
    fn from_str(s: &str) -> (r: Result<EngineOpt, String>)
        ensures
            match r {
                Ok(engine) => lowercase(s@) == engine.name(),
                Err(text) => lowercase(s@) != "kvs"@ && text@ == unknown_engine(lowercase(s@)),
            },
    {
        let lower = to_lowercase(s);
        EngineOpt::from_lowercase(lower.as_str())
    }
}

/// The engine that the server program is started with.
#[derive(Clone, Debug)]
pub enum Engine {
    /// The log-structured store of this library.
    KVS,
    /// The embedded database `sled`.
    Sled,
}

impl Default for Engine {
    fn default() -> (engine: Engine)
        ensures
            engine is KVS,
    {
        Engine::KVS
    }
}

impl Engine {
    /// The name of the engine.
    pub open spec fn name(self) -> Seq<char> {
        match self {
            Engine::KVS => "kvs"@,
            Engine::Sled => "sled"@,
        }
    }

    /// The text, as a string.
    pub fn to_string(&self) -> (text: String)
        ensures
            text@ == self.name(),
    {
        match self {
            Engine::KVS => "kvs".to_owned(),
            Engine::Sled => "sled".to_owned(),
        }
    }

    /// The engine that a name in lower case names.
    pub fn from_lowercase(name: &str) -> (r: Result<Engine, String>)
        ensures
            match r {
                Ok(engine) => name@ == engine.name(),
                Err(text) => name@ != "kvs"@ && name@ != "sled"@ && text@ == unknown_engine(name@),
            },
    {
        if same_text(name, "kvs") {
            Ok(Engine::KVS)
        } else if same_text(name, "sled") {
            Ok(Engine::Sled)
        } else {
            Err(unknown_engine_text(name))
        }
    }
}

impl std::str::FromStr for Engine {
    type Err = String;

    /// The engine that a name names, in whatever case it is written.
    fn from_str(s: &str) -> (r: Result<Engine, String>)
        ensures
            match r {
                Ok(engine) => lowercase(s@) == engine.name(),
                Err(text) => {
                    &&& lowercase(s@) != "kvs"@ && lowercase(s@) != "sled"@
                    &&& text@ == unknown_engine(lowercase(s@))
                },
            },
    {
        let lower = to_lowercase(s);
        Engine::from_lowercase(lower.as_str())
    }
}

} // verus!
