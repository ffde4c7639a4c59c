//! The configuration of the sources: which driver fetches each one, which parser converts it,
//! and where its output goes.
use vstd::prelude::*;
use crate::text::{chars_of, push_str, to_string};

verus! {

/// All configured sources, in file order.
pub struct Config {
    pub sources: Vec<SourceConfig>,
}

/// One documentation source.
#[derive(Clone)]
pub struct SourceConfig {
    pub id: String,
    pub driver: String,
    pub parser: String,
    pub out: String,
    pub http: Option<HttpConfig>,
    pub git: Option<GitConfig>,
}

/// Settings of the http driver.
#[derive(Clone)]
pub struct HttpConfig {
    pub base_url: String,
    pub proxy: Option<String>,
}

/// Settings of the git driver.
#[derive(Clone)]
pub struct GitConfig {
    pub repo: String,
    pub git_ref: String,
    /// Local path where the repo is cloned (relative to project root).
    /// Defaults to "repos/<id>".
    pub clone_dir: Option<String>,
}

/// The branch cloned when a git source names none.
pub fn default_ref() -> (r: String)
    ensures
        r@ == "master"@,
{
    String::from_str("master")
}

/// What a configuration can get wrong.
pub enum ConfigError {
    /// A source with driver "http" and no http settings.
    MissingHttp { id: String },
    /// A source with driver "git" and no git settings.
    MissingGit { id: String },
    /// A source whose driver is neither "http" nor "git".
    UnknownDriver { id: String, driver: String },
    /// No source has the id asked for.
    UnknownSource { id: String },
}

/// The message of an error.
pub open spec fn error_message(e: ConfigError) -> Seq<char> {
    match e {
        ConfigError::MissingHttp { id } => "source '"@ + id@ + "': driver=http requires [source.http]"@,
        ConfigError::MissingGit { id } => "source '"@ + id@ + "': driver=git requires [source.git]"@,
        ConfigError::UnknownDriver { id, driver } => "source '"@ + id@ + "': unknown driver '"@ + driver@ + "'"@,
        ConfigError::UnknownSource { id } => "unknown source id: "@ + id@,
    }
}

impl ConfigError {
    /// The message of this error.
    pub fn message(&self) -> (r: String)
        ensures
            r@ == error_message(*self),
    {
        let mut out: Vec<char> = Vec::new();
        match self {
            ConfigError::MissingHttp { id } => {
                push_str(&mut out, "source '");
                push_str(&mut out, id.as_str());
                push_str(&mut out, "': driver=http requires [source.http]");
            },
            ConfigError::MissingGit { id } => {
                push_str(&mut out, "source '");
                push_str(&mut out, id.as_str());
                push_str(&mut out, "': driver=git requires [source.git]");
            },
            ConfigError::UnknownDriver { id, driver } => {
                push_str(&mut out, "source '");
                push_str(&mut out, id.as_str());
                push_str(&mut out, "': unknown driver '");
                push_str(&mut out, driver.as_str());
                push_str(&mut out, "'");
            },
            ConfigError::UnknownSource { id } => {
                push_str(&mut out, "unknown source id: ");
                push_str(&mut out, id.as_str());
            },
        }
        to_string(&out)
    }
}

/// Whether a source's settings fit its driver.
pub open spec fn source_valid(s: SourceConfig) -> bool {
    (s.driver@ == "http"@ && s.http is Some) || (s.driver@ == "git"@ && s.git is Some)
}

/// Whether `e` is the error `validate` reports for the source `s`: a missing http or git
/// section for those drivers, else an unknown driver, naming the source (and the driver).
pub open spec fn is_source_error(e: ConfigError, s: SourceConfig) -> bool {
    match e {
        ConfigError::MissingHttp { id } => s.driver@ == "http"@ && s.http is None && id@ == s.id@,
        ConfigError::MissingGit { id } => s.driver@ == "git"@ && s.git is None && id@ == s.id@,
        ConfigError::UnknownDriver { id, driver } => s.driver@ != "http"@ && s.driver@ != "git"@
            && id@ == s.id@ && driver@ == s.driver@,
        ConfigError::UnknownSource { .. } => false,
    }
}

/// The clone directory of a git source: the configured one, else "repos/<id>".
pub open spec fn spec_clone_dir(s: SourceConfig) -> Seq<char> {
    match s.git {
        Some(g) => match g.clone_dir {
            Some(d) => d@,
            None => "repos/"@ + s.id@,
        },
        None => "repos/"@ + s.id@,
    }
}

fn same_text(a: &String, b: &str) -> (r: bool)
    ensures
        r == (a@ == b@),
{
    crate::text::eq_str(&chars_of(a.as_str()), b)
}

fn copy_string(s: &String) -> (r: String)
    ensures
        r@ == s@,
{
    to_string(&chars_of(s.as_str()))
}

impl SourceConfig {
    /// Checks that the driver is known and that its settings are there.
    pub fn validate(&self) -> (r: Result<(), ConfigError>)
        ensures
            r is Ok <==> source_valid(*self),
            match r {
                Err(e) => is_source_error(e, *self),
                Ok(_) => true,
            },
    {
        proof {
            reveal_strlit("http");
            reveal_strlit("git");
            assert("http"@[0] != "git"@[0]);
            assert("http"@ != "git"@);
        }
        if same_text(&self.driver, "http") {
            if self.http.is_none() {
                return Err(ConfigError::MissingHttp { id: copy_string(&self.id) });
            }
        } else if same_text(&self.driver, "git") {
            if self.git.is_none() {
                return Err(ConfigError::MissingGit { id: copy_string(&self.id) });
            }
        } else {
            return Err(ConfigError::UnknownDriver { id: copy_string(&self.id), driver: copy_string(&self.driver) });
        }
        Ok(())
    }

    /// Resolve the clone directory for a git source.
    pub fn clone_dir(&self) -> (r: String)
        ensures
            r@ == spec_clone_dir(*self),
    {
        match &self.git {
            Some(g) => match &g.clone_dir {
                Some(d) => copy_string(d),
                None => {
                    let mut out = chars_of("repos/");
                    push_str(&mut out, self.id.as_str());
                    to_string(&out)
                },
            },
            None => {
                let mut out = chars_of("repos/");
                push_str(&mut out, self.id.as_str());
                to_string(&out)
            },
        }
    }
}

/// The position of the first source with the id, if any.
pub open spec fn find_source(ss: Seq<SourceConfig>, id: Seq<char>) -> Option<int>
    decreases ss.len(),
{
    if ss.len() == 0 {
        None
    } else if ss[0].id@ == id {
        Some(0)
    } else {
        match find_source(ss.drop_first(), id) {
            Some(i) => Some(i + 1),
            None => None,
        }
    }
}

/// The position of the first source that is not valid, if any.
pub open spec fn first_invalid(ss: Seq<SourceConfig>) -> Option<int>
    decreases ss.len(),
{
    if ss.len() == 0 {
        None
    } else if !source_valid(ss[0]) {
        Some(0)
    } else {
        match first_invalid(ss.drop_first()) {
            Some(i) => Some(i + 1),
            None => None,
        }
    }
}

impl Config {
    /// Return a single source by id, or error.
    pub fn get(&self, id: &str) -> (r: Result<&SourceConfig, ConfigError>)
        ensures
            match r {
                Ok(s) => (find_source(self.sources@, id@) matches Some(i) && self.sources@[i] == *s),
                Err(e) => find_source(self.sources@, id@) is None && (e matches ConfigError::UnknownSource { id: x } && x@ == id@),
            },
    {
        let ghost ss = self.sources@;
        let mut i: usize = 0;
        proof {
            assert(ss.skip(0) =~= ss);
        }
        while i < self.sources.len()
            invariant
                i <= ss.len(),
                ss == self.sources@,
                find_source(ss, id@) == match find_source(ss.skip(i as int), id@) {
                    Some(k) => Some(k + i),
                    None => None,
                },
            decreases ss.len() - i,
        {
            proof {
                assert(ss.skip(i as int)[0] == ss[i as int]);
                assert(ss.skip(i as int).drop_first() =~= ss.skip(i + 1));
            }
            if same_text(&self.sources[i].id, id) {
                return Ok(&self.sources[i]);
            }
            i = i + 1;
        }
        proof {
            assert(ss.skip(i as int) =~= Seq::<SourceConfig>::empty());
        }
        Err(ConfigError::UnknownSource { id: String::from_str(id) })
    }

    /// Checks every source, reporting the first one that is not valid.
    pub fn validate_sources(&self) -> (r: Result<(), ConfigError>)
        ensures
            match r {
                Ok(_) => first_invalid(self.sources@) is None,
                Err(e) => (first_invalid(self.sources@) matches Some(i) && is_source_error(e, self.sources@[i])),
            },
    {
        let ghost ss = self.sources@;
        let mut i: usize = 0;
        proof {
            assert(ss.skip(0) =~= ss);
        }
        while i < self.sources.len()
            invariant
                i <= ss.len(),
                ss == self.sources@,
                first_invalid(ss) == match first_invalid(ss.skip(i as int)) {
                    Some(k) => Some(k + i),
                    None => None,
                },
            decreases ss.len() - i,
        {
            proof {
                assert(ss.skip(i as int)[0] == ss[i as int]);
                assert(ss.skip(i as int).drop_first() =~= ss.skip(i + 1));
            }
            match self.sources[i].validate() {
                Err(e) => {
                    return Err(e);
                },
                Ok(_) => {},
            }
            i = i + 1;
        }
        proof {
            assert(ss.skip(i as int) =~= Seq::<SourceConfig>::empty());
        }
        Ok(())
    }
}


/// Where the sources file is looked for, in order: the path given on the command line when
/// there is one; else `sources.toml` in the working directory, then next to the program.
pub open spec fn config_search(explicit: Option<Seq<char>>, exe_dir: Option<Seq<char>>) -> Seq<Seq<char>> {
    match explicit {
        Some(p) => seq![p],
        None => match exe_dir {
            Some(d) => seq!["sources.toml"@, d + "/sources.toml"@],
            None => seq!["sources.toml"@],
        },
    }
}

/// The paths to try for the sources file, in order.
pub fn config_search_order(explicit: Option<&str>, exe_dir: Option<&str>) -> (r: Vec<String>)
    ensures
        r.deep_view() == config_search(
            match explicit { Some(p) => Some(p@), None => None },
            match exe_dir { Some(d) => Some(d@), None => None },
        ),
{
    let mut r: Vec<String> = Vec::new();
    match explicit {
        Some(p) => {
            r.push(String::from_str(p));
        },
        None => {
            r.push(String::from_str("sources.toml"));
            match exe_dir {
                Some(d) => {
                    let mut path = chars_of(d);
                    push_str(&mut path, "/sources.toml");
                    r.push(to_string(&path));
                },
                None => {},
            }
        },
    }
    proof {
        assert(r.deep_view() =~= config_search(
            match explicit { Some(p) => Some(p@), None => None },
            match exe_dir { Some(d) => Some(d@), None => None },
        ));
    }
    r
}

} // verus!
