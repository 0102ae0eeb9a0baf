use crate::envmap::{map_of, pairs_view, EnvMap};
use crate::errors::Error;
use vstd::prelude::*;

verus! {

/// The strings of a string vector, as character sequences.
pub open spec fn strs_view(s: Seq<String>) -> Seq<Seq<char>> {
    s.map_values(|x: String| x@)
}

/// Relies on `dotenvy::from_read_iter`: reads `KEY=VALUE` lines from the
/// content, skipping blanks and comments, with quoting and `$VAR`
/// substitution as that crate defines them. Because `$VAR` substitution may
/// consult the process environment, nothing is claimed about which entries
/// come back.
#[verifier::external_body]
fn parse_env_entries(content: &str) -> (r: Result<Vec<(String, String)>, String>) {
    let iter = dotenvy::from_read_iter(std::io::Cursor::new(content));
    let mut out: Vec<(String, String)> = Vec::new();
    for item in iter {
        match item {
            Ok(kv) => out.push(kv),
            Err(e) => {
                return Err(format!("{}", e));
            },
        }
    }
    Ok(out)
}

/// Bind `entries` over `env` in order: a later entry overrides an earlier
/// one, and every entry overrides what `env` already held.
pub fn apply_env_entries(env: &mut EnvMap, entries: &Vec<(String, String)>)
    requires
        old(env).wf(),
    ensures
        final(env).wf(),
        final(env)@ == old(env)@.union_prefer_right(map_of(pairs_view(entries@))),
{
    let mut i: usize = 0;
    proof {
        assert(env@ =~= old(env)@.union_prefer_right(map_of(pairs_view(entries@).take(0))));
    }
    while i < entries.len()
        invariant
            env.wf(),
            i <= entries@.len(),
            env@ == old(env)@.union_prefer_right(map_of(pairs_view(entries@).take(i as int))),
        decreases entries@.len() - i,
    {
        let k = entries[i].0.clone();
        let v = entries[i].1.clone();
        env.insert(k, v);
        i = i + 1;
        proof {
            assert(pairs_view(entries@).take(i as int).drop_last() =~= pairs_view(
                entries@,
            ).take(i - 1));
            assert(env@ =~= old(env)@.union_prefer_right(map_of(
                pairs_view(entries@).take(i as int),
            )));
        }
    }
    proof {
        assert(pairs_view(entries@).take(entries@.len() as int) =~= pairs_view(entries@));
    }
}

/// Load the text of one env file over `env` and record its path.
///
/// On success the environment is the old one overridden by the file's
/// entries, whatever `dotenvy` produced for them, and the path is appended
/// to `env_files`. On a parse failure nothing changes.
pub fn load_env_directive(
    path: &str,
    content: &str,
    env: &mut EnvMap,
    env_files: &mut Vec<String>,
) -> (r: Result<(), Error>)
    requires
        old(env).wf(),
    ensures
        final(env).wf(),
        match r {
            Ok(_) => {
                &&& exists|es: Seq<(Seq<char>, Seq<char>)>|
                    final(env)@ == old(env)@.union_prefer_right(map_of(es))
                &&& strs_view(final(env_files)@) == strs_view(old(env_files)@).push(path@)
            },
            Err(e) => {
                &&& *final(env) == *old(env)
                &&& *final(env_files) == *old(env_files)
                &&& e@ matches crate::errors::ErrorView::FileReadFailure(p) && p == path@
            },
        },
{
    match parse_env_entries(content) {
        Err(_msg) => Err(Error::FileReadFailure(String::from_str(path))),
        Ok(entries) => {
            apply_env_entries(env, &entries);
            env_files.push(String::from_str(path));
            proof {
                let ghost es = pairs_view(entries@);
                assert(env@ == old(env)@.union_prefer_right(map_of(es)));
                assert(strs_view(env_files@) =~= strs_view(old(env_files)@).push(path@));
            }
            Ok(())
        },
    }
}

} // verus!
