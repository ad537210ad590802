//! The platform context: one value that gathers the handles through which
//! system-related operations go, so that callers can be built against fake
//! implementations in tests. The handles here are pure values; the operations
//! that actually touch the machine live outside this library.

use std::sync::Arc;

use vstd::prelude::*;
use vstd::string::*;

use crate::text::str_eq;

verus! {

/// File-system handle carried by a [`Context`].
#[derive(Debug)]
pub struct Fs {}

impl Clone for Fs {
    /// A clone is the same handle.
    fn clone(&self) -> (r: Fs)
        ensures
            r == *self,
    {
        Fs {  }
    }
}

impl Default for Fs {
    /// The default file-system handle.
    fn default() -> (r: Fs)
        ensures
            r == (Fs {  }),
    {
        Fs {  }
    }
}

/// System-information handle carried by a [`Context`].
#[derive(Debug)]
pub struct SysInfo {}

impl SysInfo {
    /// Creates the handle.
    pub fn new() -> (r: SysInfo)
        ensures
            r == (SysInfo {  }),
    {
        SysInfo {  }
    }
}

impl Clone for SysInfo {
    /// A clone is the same handle.
    fn clone(&self) -> (r: SysInfo)
        ensures
            r == *self,
    {
        SysInfo {  }
    }
}

impl Default for SysInfo {
    /// The default system-information handle.
    fn default() -> (r: SysInfo)
        ensures
            r == (SysInfo {  }),
    {
        SysInfo {  }
    }
}

/// Operating-system handle carried by a [`Context`].
#[derive(Debug)]
pub struct Platform {}

impl Platform {
    /// Creates the handle.
    pub fn new() -> (r: Platform)
        ensures
            r == (Platform {  }),
    {
        Platform {  }
    }
}

impl Clone for Platform {
    /// A clone is the same handle.
    fn clone(&self) -> (r: Platform)
        ensures
            r == *self,
    {
        Platform {  }
    }
}

impl Default for Platform {
    /// The default operating-system handle.
    fn default() -> (r: Platform)
        ensures
            r == (Platform {  }),
    {
        Platform {  }
    }
}

/// First value stored under key `k`, scanning from the front.
pub open spec fn env_lookup(s: Seq<(Seq<char>, Seq<char>)>, k: Seq<char>) -> Option<Seq<char>>
    decreases s.len(),
{
    if s.len() == 0 {
        None
    } else if s[0].0 == k {
        Some(s[0].1)
    } else {
        env_lookup(s.drop_first(), k)
    }
}

/// A set of environment variables held as explicit key/value pairs.
#[derive(Debug)]
pub struct Env {
    vars: Vec<(String, String)>,
}

impl View for Env {
    type V = Seq<(Seq<char>, Seq<char>)>;

    /// An environment is seen as its sequence of key/value pairs.
    closed spec fn view(&self) -> Seq<(Seq<char>, Seq<char>)> {
        self.vars@.map(|i: int, p: (String, String)| (p.0@, p.1@))
    }
}

impl Env {
    /// Creates an environment with no variables set.
    pub fn new() -> (e: Env)
        ensures
            e@ =~= Seq::<(Seq<char>, Seq<char>)>::empty(),
    {
        Env { vars: Vec::new() }
    }

    /// Builds an environment from explicit pairs, kept in order.
    pub fn from_slice(pairs: &[(&str, &str)]) -> (e: Env)
        ensures
            e@.len() == pairs@.len(),
            forall|i: int|
                0 <= i < pairs@.len() ==> #[trigger] e@[i] == (pairs@[i].0@, pairs@[i].1@),
    {
        let mut vars: Vec<(String, String)> = Vec::new();
        let n = pairs.len();
        let mut i: usize = 0;
        while i < n
            invariant
                n == pairs@.len(),
                i <= n,
                vars@.len() == i,
                forall|j: int|
                    0 <= j < i ==> (#[trigger] vars@[j]).0@ == pairs@[j].0@ && vars@[j].1@
                        == pairs@[j].1@,
            decreases n - i,
        {
            let pair = pairs[i];
            vars.push((String::from_str(pair.0), String::from_str(pair.1)));
            i += 1;
        }
        let e = Env { vars };
        proof {
            assert forall|i: int|
                0 <= i < pairs@.len() implies #[trigger] e@[i] == (pairs@[i].0@, pairs@[i].1@) by {
                assert(e@[i] == (vars@[i].0@, vars@[i].1@));
            }
        }
        e
    }

    /// Returns the value stored under `key`, if any.
    pub fn get(&self, key: &str) -> (r: Option<String>)
        ensures
            match r {
                Some(v) => env_lookup(self@, key@) == Some(v@),
                None => env_lookup(self@, key@) is None,
            },
    {
        let n = self.vars.len();
        let mut i: usize = 0;
        proof {
            assert(self@.skip(0) =~= self@);
        }
        while i < n
            invariant
                n == self.vars@.len(),
                i <= n,
                env_lookup(self@, key@) == env_lookup(self@.skip(i as int), key@),
            decreases n - i,
        {
            proof {
                assert(self@.skip(i as int)[0] == self@[i as int]);
                assert(self@[i as int] == (self.vars@[i as int].0@, self.vars@[i as int].1@));
            }
            if str_eq(self.vars[i].0.as_str(), key) {
                return Some(self.vars[i].1.clone());
            }
            proof {
                assert(self@.skip(i as int).drop_first() =~= self@.skip(i as int + 1));
            }
            i += 1;
        }
        proof {
            assert(self@.skip(n as int) =~= Seq::<(Seq<char>, Seq<char>)>::empty());
        }
        None
    }
}

impl Clone for Env {
    /// A clone holds the same variables.
    fn clone(&self) -> (e: Env)
        ensures
            e@ == self@,
    {
        let mut vars: Vec<(String, String)> = Vec::new();
        let n = self.vars.len();
        let mut i: usize = 0;
        while i < n
            invariant
                n == self.vars@.len(),
                i <= n,
                vars@.len() == i,
                forall|j: int|
                    0 <= j < i ==> (#[trigger] vars@[j]).0@ == self.vars@[j].0@ && vars@[j].1@
                        == self.vars@[j].1@,
            decreases n - i,
        {
            vars.push((self.vars[i].0.clone(), self.vars[i].1.clone()));
            i += 1;
        }
        let e = Env { vars };
        proof {
            assert forall|i: int| 0 <= i < self@.len() implies #[trigger] e@[i] == self@[i] by {
                assert(e@[i] == (vars@[i].0@, vars@[i].1@));
                assert(self@[i] == (self.vars@[i].0@, self.vars@[i].1@));
            }
            assert(e@ =~= self@);
        }
        e
    }
}

impl Default for Env {
    /// The default environment has no variables set.
    fn default() -> (e: Env)
        ensures
            e@ =~= Seq::<(Seq<char>, Seq<char>)>::empty(),
    {
        Env::new()
    }
}

/// The interface to every system-related operation. Callers reach the file
/// system, the environment and platform facts through one of these, which
/// lets tests substitute fake implementations.
#[derive(Debug)]
pub struct Context {
    pub fs: Fs,
    pub env: Env,
    pub sysinfo: SysInfo,
    pub platform: Platform,
}

impl Context {
    /// Creates a context with every handle at its default.
    pub fn new() -> (c: Context)
        ensures
            c.env@ =~= Seq::<(Seq<char>, Seq<char>)>::empty(),
    {
        Context::default()
    }

    /// Starts building a context.
    pub fn builder() -> (b: ContextBuilder)
        ensures
            b.fs is None,
            b.env is None,
            b.sysinfo is None,
            b.platform is None,
    {
        ContextBuilder::new()
    }
}

impl Clone for Context {
    /// A clone carries the same handles.
    fn clone(&self) -> (c: Context)
        ensures
            c.env@ == self.env@,
    {
        Context {
            fs: self.fs.clone(),
            env: self.env.clone(),
            sysinfo: self.sysinfo.clone(),
            platform: self.platform.clone(),
        }
    }
}

impl Default for Context {
    /// The default context holds every handle at its default.
    fn default() -> (c: Context)
        ensures
            c.env@ =~= Seq::<(Seq<char>, Seq<char>)>::empty(),
    {
        Context { fs: Fs {  }, env: Env::new(), sysinfo: SysInfo::new(), platform: Platform::new() }
    }
}

/// Builds a [`Context`], with each handle either supplied or left to its
/// default.
#[derive(Debug)]
pub struct ContextBuilder {
    pub fs: Option<Fs>,
    pub env: Option<Env>,
    pub sysinfo: Option<SysInfo>,
    pub platform: Option<Platform>,
}

impl ContextBuilder {
    /// Starts with no handle supplied.
    pub fn new() -> (b: ContextBuilder)
        ensures
            b.fs is None,
            b.env is None,
            b.sysinfo is None,
            b.platform is None,
    {
        ContextBuilder { fs: None, env: None, sysinfo: None, platform: None }
    }

    /// Builds a shared immutable context, defaulting each missing handle.
    pub fn build(self) -> (c: Arc<Context>)
        ensures
            self.env is Some ==> c.env == self.env->0,
            self.env is None ==> c.env@ =~= Seq::<(Seq<char>, Seq<char>)>::empty(),
    {
        let fs = match self.fs {
            Some(fs) => fs,
            None => Fs::default(),
        };
        let env = match self.env {
            Some(env) => env,
            None => Env::default(),
        };
        let sysinfo = match self.sysinfo {
            Some(s) => s,
            None => SysInfo::default(),
        };
        let platform = match self.platform {
            Some(p) => p,
            None => Platform::default(),
        };
        Arc::new(Context { fs, env, sysinfo, platform })
    }

    /// Builds an owned context, defaulting each missing handle.
    pub fn build_fake(self) -> (c: Context)
        ensures
            self.env is Some ==> c.env == self.env->0,
            self.env is None ==> c.env@ =~= Seq::<(Seq<char>, Seq<char>)>::empty(),
    {
        let fs = match self.fs {
            Some(fs) => fs,
            None => Fs::default(),
        };
        let env = match self.env {
            Some(env) => env,
            None => Env::default(),
        };
        let sysinfo = match self.sysinfo {
            Some(s) => s,
            None => SysInfo::new(),
        };
        let platform = match self.platform {
            Some(p) => p,
            None => Platform::new(),
        };
        Context { fs, env, sysinfo, platform }
    }

    /// Supplies the environment.
    pub fn with_env(self, env: Env) -> (b: ContextBuilder)
        ensures
            b.env == Some(env),
            b.fs == self.fs,
            b.sysinfo == self.sysinfo,
            b.platform == self.platform,
    {
        ContextBuilder { env: Some(env), ..self }
    }

    /// Supplies the file-system handle.
    pub fn with_fs(self, fs: Fs) -> (b: ContextBuilder)
        ensures
            b.fs == Some(fs),
            b.env == self.env,
            b.sysinfo == self.sysinfo,
            b.platform == self.platform,
    {
        ContextBuilder { fs: Some(fs), ..self }
    }
}

impl Default for ContextBuilder {
    /// The default builder has no handle supplied.
    fn default() -> (b: ContextBuilder)
        ensures
            b.fs is None,
            b.env is None,
            b.sysinfo is None,
            b.platform is None,
    {
        ContextBuilder::new()
    }
}

} // verus!
