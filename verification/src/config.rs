use crate::envfile::{load_env_directive, strs_view};
use crate::envmap::{map_of, EnvMap, FileStore};
use crate::errors::{Error, ErrorView};
use crate::strkit::{chars_of, utf8_decode, utf8_text};
use vstd::prelude::*;

verus! {

/// One profile of the configuration document.
#[derive(Debug)]
pub struct CurlpitProfileConfig {
    pub env: Option<String>,
    pub variables: EnvMap,
    pub vars: EnvMap,
    pub response_output_dir: Option<String>,
}

impl CurlpitProfileConfig {
    pub open spec fn wf(&self) -> bool {
        self.variables.wf() && self.vars.wf()
    }
}

/// The import policy of the configuration: header include and exclude lists
/// and headers to append.
#[derive(Debug)]
pub struct ImportConfig {
    pub include_headers: Option<Vec<String>>,
    pub exclude_headers: Option<Vec<String>>,
    pub append_headers: EnvMap,
}

impl ImportConfig {
    pub open spec fn wf(&self) -> bool {
        self.append_headers.wf()
    }
}

/// The configuration document: named profiles, root-level variables and
/// aliases, a default profile, an output directory, and import policy.
#[derive(Debug)]
pub struct CurlpitConfig {
    pub profiles: Vec<(String, CurlpitProfileConfig)>,
    pub variables: EnvMap,
    pub vars: EnvMap,
    pub default_profile: Option<String>,
    pub response_output_dir: Option<String>,
    pub import: Option<ImportConfig>,
}

impl CurlpitConfig {
    pub open spec fn wf(&self) -> bool {
        &&& self.variables.wf()
        &&& self.vars.wf()
        &&& forall|i: int| 0 <= i < self.profiles@.len() ==> (#[trigger] self.profiles@[i]).1.wf()
        &&& match self.import {
            Some(imp) => imp.wf(),
            None => true,
        }
    }
}

/// A path is absolute when it starts at the root.
pub open spec fn spec_is_absolute(p: Seq<char>) -> bool {
    p.len() > 0 && p[0] == '/'
}

/// `value` resolved against `base`: kept as is when absolute, else joined
/// under `base` with a separator.
pub open spec fn spec_resolve_relative(base: Seq<char>, value: Seq<char>) -> Seq<char> {
    if spec_is_absolute(value) {
        value
    } else {
        base + "/"@ + value
    }
}

/// Resolve `value` against `base`. An absolute path (one starting with
/// `/`) stands alone; anything else is joined under `base`.
pub fn resolve_relative(base: &str, value: &str) -> (r: String)
    ensures
        r@ == spec_resolve_relative(base@, value@),
{
    let vc = chars_of(value);
    if vc.len() > 0 && vc[0] == '/' {
        String::from_str(value)
    } else {
        let mut out = String::from_str(base);
        out.append("/");
        out.append(value);
        out
    }
}

/// The position of the first profile named `n`, if any.
pub open spec fn find_profile(ps: Seq<(String, CurlpitProfileConfig)>, n: Seq<char>) -> Option<
    int,
>
    decreases ps.len(),
{
    if ps.len() == 0 {
        None
    } else if ps[0].0@ == n {
        Some(0int)
    } else {
        match find_profile(ps.drop_first(), n) {
            Some(i) => Some(i + 1),
            None => None,
        }
    }
}

pub proof fn lemma_find_profile(ps: Seq<(String, CurlpitProfileConfig)>, n: Seq<char>)
    ensures
        match find_profile(ps, n) {
            Some(i) => 0 <= i < ps.len() && ps[i].0@ == n && forall|j: int|
                0 <= j < i ==> ps[j].0@ != n,
            None => forall|j: int| 0 <= j < ps.len() ==> ps[j].0@ != n,
        },
    decreases ps.len(),
{
    if ps.len() > 0 && ps[0].0@ != n {
        lemma_find_profile(ps.drop_first(), n);
        match find_profile(ps, n) {
            Some(i) => {
                assert(ps[i] == ps.drop_first()[i - 1]);
                assert forall|j: int| 0 <= j < i implies ps[j].0@ != n by {
                    if j > 0 {
                        assert(ps[j] == ps.drop_first()[j - 1]);
                    }
                }
            },
            None => {
                assert forall|j: int| 0 <= j < ps.len() implies ps[j].0@ != n by {
                    if j > 0 {
                        assert(ps[j] == ps.drop_first()[j - 1]);
                    }
                }
            },
        }
    }
}

fn find_profile_exec(ps: &Vec<(String, CurlpitProfileConfig)>, n: &str) -> (r: Option<usize>)
    ensures
        match r {
            Some(i) => find_profile(ps@, n@) == Some(i as int),
            None => find_profile(ps@, n@) is None,
        },
{
    proof {
        lemma_find_profile(ps@, n@);
    }
    let mut i: usize = 0;
    while i < ps.len()
        invariant
            i <= ps@.len(),
            forall|j: int| 0 <= j < i ==> ps@[j].0@ != n@,
        decreases ps@.len() - i,
    {
        if crate::strkit::str_eq(ps[i].0.as_str(), n) {
            proof {
                lemma_find_profile(ps@, n@);
                if find_profile(ps@, n@) is Some {
                    let k = find_profile(ps@, n@).unwrap();
                    let ii = i as int;
                    assert(!(k < ii) && !(ii < k));
                } else {
                    assert(ps@[i as int].0@ == n@);
                }
            }
            return Some(i);
        }
        i = i + 1;
    }
    None
}

/// Which profile a request selects: the requested name when given (or an
/// unknown-profile failure), else the declared default when it resolves,
/// else the first profile; a configuration without profiles is refused.
pub open spec fn spec_resolve_profile(cfg: CurlpitConfig, requested: Option<Seq<char>>) -> Result<
    int,
    ErrorView,
> {
    if cfg.profiles@.len() == 0 {
        Err(ErrorView::NoProfilesDefined)
    } else {
        match requested {
            Some(name) => match find_profile(cfg.profiles@, name) {
                Some(i) => Ok(i),
                None => Err(ErrorView::UnknownProfile(name)),
            },
            None => match cfg.default_profile {
                Some(d) => match find_profile(cfg.profiles@, d@) {
                    Some(i) => Ok(i),
                    None => Ok(0int),
                },
                None => Ok(0int),
            },
        }
    }
}

/// Select a profile of `config`, as [`spec_resolve_profile`] defines it, and
/// return its position.
pub fn resolve_profile(config: &CurlpitConfig, requested: Option<&str>) -> (r: Result<
    usize,
    Error,
>)
    ensures
        match r {
            Ok(i) => spec_resolve_profile(*config, spec_requested_view(requested)) == Ok::<
                int,
                ErrorView,
            >(i as int),
            Err(e) => spec_resolve_profile(*config, spec_requested_view(requested)) == Err::<
                int,
                ErrorView,
            >(e@),
        },
{
    if config.profiles.len() == 0 {
        return Err(Error::NoProfilesDefined);
    }
    match requested {
        Some(name) => match find_profile_exec(&config.profiles, name) {
            Some(i) => Ok(i),
            None => Err(Error::UnknownProfile(String::from_str(name))),
        },
        None => match &config.default_profile {
            Some(d) => match find_profile_exec(&config.profiles, d.as_str()) {
                Some(i) => Ok(i),
                None => Ok(0),
            },
            None => Ok(0),
        },
    }
}

/// The requested name as a sequence, if one was given.
pub open spec fn spec_requested_view(requested: Option<&str>) -> Option<Seq<char>> {
    match requested {
        Some(s) => Some(s@),
        None => None,
    }
}

/// The resolved, immutable environment of one invocation.
#[derive(Debug)]
pub struct EnvironmentContext {
    pub base_dir: String,
    pub config_dir: String,
    pub template_variables: EnvMap,
    pub initial_env: EnvMap,
    pub env_files: Vec<String>,
    pub profile_name: Option<String>,
    pub response_output_dir: Option<String>,
}

impl EnvironmentContext {
    pub open spec fn wf(&self) -> bool {
        self.template_variables.wf() && self.initial_env.wf()
    }
}

/// Everything an environment resolution starts from.
#[derive(Debug)]
pub struct EnvironmentBuilder {
    pub base_dir: String,
    pub config_dir: String,
    pub config: Option<CurlpitConfig>,
    pub requested_profile: Option<String>,
    pub explicit_env: Option<String>,
    pub explicit_output_dir: Option<String>,
}

/// The variable layers of the selected profile merged in precedence order:
/// root variables, root aliases, profile variables, profile aliases.
pub open spec fn spec_template_vars(cfg: CurlpitConfig, pidx: int) -> Map<Seq<char>, Seq<char>> {
    Map::<Seq<char>, Seq<char>>::empty().union_prefer_right(cfg.variables@).union_prefer_right(
        cfg.vars@,
    ).union_prefer_right(cfg.profiles@[pidx].1.variables@).union_prefer_right(
        cfg.profiles@[pidx].1.vars@,
    )
}

/// The env file that a build will load: the explicit override when given,
/// else the profile's declared file resolved against the configuration
/// directory, else none.
pub open spec fn spec_env_path(b: EnvironmentBuilder, pidx: int) -> Option<Seq<char>> {
    match b.explicit_env {
        Some(e) => Some(e@),
        None => match b.config {
            Some(cfg) => match cfg.profiles@[pidx].1.env {
                Some(pe) => Some(spec_resolve_relative(b.config_dir@, pe@)),
                None => None,
            },
            None => None,
        },
    }
}

/// The output directory a build resolves, before re-anchoring: the explicit
/// override, else the profile's, else the root's, each resolved against the
/// configuration directory.
pub open spec fn spec_output_dir_raw(b: EnvironmentBuilder, pidx: int) -> Option<Seq<char>> {
    match b.explicit_output_dir {
        Some(d) => Some(d@),
        None => match b.config {
            Some(cfg) => match cfg.profiles@[pidx].1.response_output_dir {
                Some(pd) => Some(spec_resolve_relative(b.config_dir@, pd@)),
                None => match cfg.response_output_dir {
                    Some(rd) => Some(spec_resolve_relative(b.config_dir@, rd@)),
                    None => None,
                },
            },
            None => None,
        },
    }
}

/// [`spec_output_dir_raw`] with a still-relative result re-anchored to the
/// base directory.
pub open spec fn spec_output_dir(b: EnvironmentBuilder, pidx: int) -> Option<Seq<char>> {
    match spec_output_dir_raw(b, pidx) {
        Some(d) => Some(
            if spec_is_absolute(d) {
                d
            } else {
                spec_resolve_relative(b.base_dir@, d)
            },
        ),
        None => None,
    }
}

impl EnvironmentBuilder {
    pub open spec fn wf(&self) -> bool {
        match self.config {
            Some(cfg) => cfg.wf(),
            None => true,
        }
    }

    pub fn new(
        base_dir: String,
        config_dir: String,
        config: Option<CurlpitConfig>,
        requested_profile: Option<String>,
        explicit_env: Option<String>,
        explicit_output_dir: Option<String>,
    ) -> (r: EnvironmentBuilder)
        ensures
            r.base_dir == base_dir,
            r.config_dir == config_dir,
            r.config == config,
            r.requested_profile == requested_profile,
            r.explicit_env == explicit_env,
            r.explicit_output_dir == explicit_output_dir,
    {
        EnvironmentBuilder {
            base_dir,
            config_dir,
            config,
            requested_profile,
            explicit_env,
            explicit_output_dir,
        }
    }

    /// Resolve the environment from the builder's inputs and the files in
    /// `files`.
    ///
    /// The template variables are the four configuration layers merged in
    /// order; the initial environment seeds them and then lets the env
    /// file's entries override; the output directory follows the override
    /// chain and is re-anchored to the base directory when still relative.
    /// A missing or undecodable env file fails with its path; so does one
    /// that does not parse.
    pub fn build(&self, files: &FileStore) -> (r: Result<EnvironmentContext, Error>)
        requires
            self.wf(),
            files.wf(),
        ensures
            match r {
                Ok(ctx) => {
                    &&& ctx.wf()
                    &&& ctx.base_dir@ == self.base_dir@
                    &&& ctx.config_dir@ == self.config_dir@
                    &&& match self.config {
                        Some(cfg) => {
                            &&& spec_resolve_profile(
                                cfg,
                                match self.requested_profile {
                                    Some(p) => Some(p@),
                                    None => None,
                                },
                            ) matches Ok(pidx)
                            &&& ctx.profile_name matches Some(n) && n@ == cfg.profiles@[pidx].0@
                            &&& ctx.template_variables@ == spec_template_vars(cfg, pidx)
                            &&& match spec_env_path(*self, pidx) {
                                Some(path) => {
                                    &&& files@.contains_key(path)
                                    &&& utf8_decode(files@[path]) is Some
                                    &&& exists|es: Seq<(Seq<char>, Seq<char>)>|
                                        ctx.initial_env@ == spec_template_vars(
                                            cfg,
                                            pidx,
                                        ).union_prefer_right(map_of(es))
                                    &&& strs_view(ctx.env_files@) == seq![path]
                                },
                                None => {
                                    &&& ctx.initial_env@ == spec_template_vars(cfg, pidx)
                                    &&& strs_view(ctx.env_files@) == Seq::<Seq<char>>::empty()
                                },
                            }
                            &&& match spec_output_dir(*self, pidx) {
                                Some(d) => ctx.response_output_dir matches Some(od) && od@ == d,
                                None => ctx.response_output_dir is None,
                            }
                        },
                        None => {
                            &&& ctx.profile_name is None
                            &&& ctx.template_variables@ == Map::<Seq<char>, Seq<char>>::empty()
                            &&& match self.explicit_env {
                                Some(e) => {
                                    &&& files@.contains_key(e@)
                                    &&& utf8_decode(files@[e@]) is Some
                                    &&& exists|es: Seq<(Seq<char>, Seq<char>)>|
                                        ctx.initial_env@ == Map::<
                                            Seq<char>,
                                            Seq<char>,
                                        >::empty().union_prefer_right(map_of(es))
                                    &&& strs_view(ctx.env_files@) == seq![e@]
                                },
                                None => {
                                    &&& ctx.initial_env@ == Map::<Seq<char>, Seq<char>>::empty()
                                    &&& strs_view(ctx.env_files@) == Seq::<Seq<char>>::empty()
                                },
                            }
                            &&& match self.explicit_output_dir {
                                Some(d) => ctx.response_output_dir matches Some(od) && od@ == (
                                if spec_is_absolute(d@) {
                                    d@
                                } else {
                                    spec_resolve_relative(self.base_dir@, d@)
                                }),
                                None => ctx.response_output_dir is None,
                            }
                        },
                    }
                },
                Err(e) => match self.config {
                    Some(cfg) => match spec_resolve_profile(
                        cfg,
                        match self.requested_profile {
                            Some(p) => Some(p@),
                            None => None,
                        },
                    ) {
                        Err(pe) => e@ == pe,
                        Ok(pidx) => e@ matches ErrorView::FileReadFailure(p) && Some(p)
                            == spec_env_path(*self, pidx),
                    },
                    None => e@ matches ErrorView::FileReadFailure(p) && self.explicit_env
                        matches Some(x) && p == x@,
                },
            },
    {
        let mut template_variables = EnvMap::new();
        let mut profile_name: Option<String> = None;
        let mut env_files: Vec<String> = Vec::new();
        let mut initial_env = EnvMap::new();
        let mut response_output_dir: Option<String> = match &self.explicit_output_dir {
            Some(d) => Some(d.clone()),
            None => None,
        };

        match &self.config {
            Some(cfg) => {
                let requested: Option<&str> = match &self.requested_profile {
                    Some(p) => Some(p.as_str()),
                    None => None,
                };
                let pidx = match resolve_profile(cfg, requested) {
                    Ok(i) => i,
                    Err(e) => {
                        return Err(e);
                    },
                };
                proof {
                    lemma_find_profile_bounds(cfg, requested, pidx as int);
                }
                profile_name = Some(cfg.profiles[pidx].0.clone());
                template_variables.extend_from(&cfg.variables);
                template_variables.extend_from(&cfg.vars);
                template_variables.extend_from(&cfg.profiles[pidx].1.variables);
                template_variables.extend_from(&cfg.profiles[pidx].1.vars);
                initial_env.extend_from(&template_variables);
                proof {
                    assert(template_variables@ =~= spec_template_vars(*cfg, pidx as int));
                    assert(initial_env@ =~= spec_template_vars(*cfg, pidx as int));
                }

                let env_path: Option<String> = match &self.explicit_env {
                    Some(explicit) => Some(explicit.clone()),
                    None => match &cfg.profiles[pidx].1.env {
                        Some(profile_env) => Some(
                            resolve_relative(self.config_dir.as_str(), profile_env.as_str()),
                        ),
                        None => None,
                    },
                };

                if let Some(path) = env_path {
                    match load_env_from_store(&path, files, &mut initial_env, &mut env_files) {
                        Ok(_) => {
                            proof {
                                assert(strs_view(env_files@) =~= seq![path@]);
                            }
                        },
                        Err(e) => {
                            return Err(e);
                        },
                    }
                }

                if response_output_dir.is_none() {
                    if let Some(dir) = &cfg.profiles[pidx].1.response_output_dir {
                        response_output_dir = Some(
                            resolve_relative(self.config_dir.as_str(), dir.as_str()),
                        );
                    }
                }
                if response_output_dir.is_none() {
                    if let Some(dir) = &cfg.response_output_dir {
                        response_output_dir = Some(
                            resolve_relative(self.config_dir.as_str(), dir.as_str()),
                        );
                    }
                }
            },
            None => {
                if let Some(explicit) = &self.explicit_env {
                    let path = explicit.clone();
                    match load_env_from_store(&path, files, &mut initial_env, &mut env_files) {
                        Ok(_) => {
                            proof {
                                assert(strs_view(env_files@) =~= seq![path@]);
                            }
                        },
                        Err(e) => {
                            return Err(e);
                        },
                    }
                }
            },
        }

        let response_output_dir = match response_output_dir {
            Some(dir) => {
                let dc = chars_of(dir.as_str());
                if dc.len() > 0 && dc[0] == '/' {
                    Some(dir)
                } else {
                    Some(resolve_relative(self.base_dir.as_str(), dir.as_str()))
                }
            },
            None => None,
        };

        Ok(
            EnvironmentContext {
                base_dir: self.base_dir.clone(),
                config_dir: self.config_dir.clone(),
                template_variables,
                initial_env,
                env_files,
                profile_name,
                response_output_dir,
            },
        )
    }
}

/// A profile position a successful resolution returns is in bounds.
proof fn lemma_find_profile_bounds(cfg: &CurlpitConfig, requested: Option<&str>, i: int)
    requires
        spec_resolve_profile(*cfg, spec_requested_view(requested)) == Ok::<int, ErrorView>(i),
    ensures
        0 <= i < cfg.profiles@.len(),
{
    match spec_requested_view(requested) {
        Some(name) => {
            lemma_find_profile(cfg.profiles@, name);
        },
        None => {
            match cfg.default_profile {
                Some(d) => {
                    lemma_find_profile(cfg.profiles@, d@);
                },
                None => {
                },
            }
        },
    }
}

/// Fetch one env file from the store, decode it, and merge it.
fn load_env_from_store(
    path: &String,
    files: &FileStore,
    env: &mut EnvMap,
    env_files: &mut Vec<String>,
) -> (r: Result<(), Error>)
    requires
        old(env).wf(),
        files.wf(),
    ensures
        final(env).wf(),
        match r {
            Ok(_) => {
                &&& files@.contains_key(path@)
                &&& utf8_decode(files@[path@]) is Some
                &&& exists|es: Seq<(Seq<char>, Seq<char>)>|
                    final(env)@ == old(env)@.union_prefer_right(map_of(es))
                &&& strs_view(final(env_files)@) == strs_view(old(env_files)@).push(path@)
            },
            Err(e) => {
                &&& *final(env) == *old(env)
                &&& *final(env_files) == *old(env_files)
                &&& e@ matches ErrorView::FileReadFailure(p) && p == path@
            },
        },
{
    match files.get(path.as_str()) {
        None => Err(Error::FileReadFailure(path.clone())),
        Some(bytes) => match utf8_text(bytes) {
            None => Err(Error::FileReadFailure(path.clone())),
            Some(content) => load_env_directive(path.as_str(), content.as_str(), env, env_files),
        },
    }
}

} // verus!
