//! The incremental-compilation policy: an explicit environment override wins
//! outright; otherwise a global configuration key set to false wins;
//! otherwise the profile's own default applies. Regardless of the above,
//! incremental compilation is requested only for packages from a locally
//! editable source.

use vstd::prelude::*;

use crate::strings::views_of;

verus! {

/// The incremental decision before the source-locality restriction.
pub open spec fn incremental_policy_spec(
    env: Option<bool>,
    global: Option<bool>,
    profile_default: bool,
) -> bool {
    match env {
        Some(v) => v,
        None => match global {
            Some(g) => if g {
                profile_default
            } else {
                false
            },
            None => profile_default,
        },
    }
}

/// Decide whether incremental compilation is requested, before the
/// source-locality restriction.
pub fn incremental_policy(env: Option<bool>, global: Option<bool>, profile_default: bool) -> (b:
    bool)
    ensures
        b == incremental_policy_spec(env, global, profile_default),
        env is Some ==> b == env.unwrap(),
        env is None && global == Some(false) ==> b == false,
        env is None && (global == Some(true) || global is None) ==> b == profile_default,
{
    match env {
        Some(v) => v,
        None => match global {
            Some(g) => g && profile_default,
            None => profile_default,
        },
    }
}

/// The extra compiler arguments requesting incremental compilation: present
/// exactly when the policy allows it and the package's source is locally
/// editable, and then naming the unit's incremental state directory.
pub open spec fn incremental_args_spec(
    env: Option<bool>,
    global: Option<bool>,
    profile_default: bool,
    is_local: bool,
    dir: Seq<char>,
) -> Seq<Seq<char>> {
    if incremental_policy_spec(env, global, profile_default) && is_local {
        seq!["-C"@, "incremental="@ + dir]
    } else {
        Seq::empty()
    }
}

/// Compute the incremental arguments for one unit.
pub fn incremental_args_for(
    env: Option<bool>,
    global: Option<bool>,
    profile_default: bool,
    is_local: bool,
    dir: &str,
) -> (r: Vec<String>)
    ensures
        views_of(r@) =~= incremental_args_spec(env, global, profile_default, is_local, dir@),
{
    let on = incremental_policy(env, global, profile_default);
    let mut r: Vec<String> = Vec::new();
    if on && is_local {
        let mut arg = "incremental=".to_owned();
        arg.append(dir);
        r.push("-C".to_owned());
        r.push(arg);
        proof {
            assert(views_of(r@) =~= seq!["-C"@, "incremental="@ + dir@]);
        }
    } else {
        proof {
            assert(views_of(r@) =~= Seq::<Seq<char>>::empty());
        }
    }
    r
}

/// The policy table: an environment override of either polarity wins; with
/// no override a global `false` disables; otherwise the profile default
/// stands; and a package from a non-local source never compiles
/// incrementally, whatever the rest says.
pub proof fn lemma_incremental_policy_table(
    env: Option<bool>,
    global: Option<bool>,
    profile_default: bool,
    is_local: bool,
    dir: Seq<char>,
)
    ensures
        env is Some ==> incremental_policy_spec(env, global, profile_default) == env.unwrap(),
        env is None && global == Some(false) ==> !incremental_policy_spec(
            env,
            global,
            profile_default,
        ),
        env is None && (global == Some(true) || global is None)
            ==> incremental_policy_spec(env, global, profile_default) == profile_default,
        !is_local ==> incremental_args_spec(env, global, profile_default, is_local, dir)
            == Seq::<Seq<char>>::empty(),
{
}

} // verus!
