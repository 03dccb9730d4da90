//! User accounts, as emitted in `users.nix`.
use vstd::prelude::*;
use std::collections::HashMap;
use vstd::std_specs::iter::IteratorSpec;
use crate::error::{NixError, Result};
use crate::files::ProjectFiles;
use crate::text::{chars_of, owned, push_decimal_u64, push_str, str_eq};

verus! {

/// Lowest and highest UID a regular user may have.
pub const MIN_UID: u32 = 1000;
pub const MAX_UID: u32 = 64999;

pub struct User {
    pub login: String,
    pub uid: u32,
    pub name: String,
    pub email: Option<String>,
    pub profile: String,
    pub groups: Vec<String>,
    /// Emitted as `disabled = true;` when set.
    pub disabled: bool,
}

/// What a user is built from.
pub struct UserBuildConfig<'a> {
    pub login: &'a str,
    pub uid: u32,
    pub name: &'a str,
    pub email: Option<&'a str>,
    pub profile: &'a str,
    pub groups: Vec<String>,
    pub disabled: bool,
    /// UID -> login of every account built so far.
    pub uid_tracker: &'a mut HashMap<u32, String>,
    pub files: &'a ProjectFiles,
}

/// Path of home-manager profile `p` in tree `side` (`usr` or `dnf`).
pub open spec fn profile_path(side: Seq<char>, p: Seq<char>) -> Seq<char> {
    side + "/home/profiles/"@ + p
}

/// The profile path a user gets: the project's own (`usr`) shadows the
/// framework's (`dnf`).
pub open spec fn resolved_profile(files: ProjectFiles, p: Seq<char>) -> Option<Seq<char>> {
    if files.has(profile_path("usr"@, p)) {
        Some(profile_path("usr"@, p))
    } else if files.has(profile_path("dnf"@, p)) {
        Some(profile_path("dnf"@, p))
    } else {
        None
    }
}

/// Some account of `tracker` has login `login`.
pub open spec fn login_taken(tracker: Map<u32, String>, login: Seq<char>) -> bool {
    exists|u: u32| tracker.contains_key(u) && #[trigger] tracker[u]@ == login
}

/// Resolves the home-manager profile `profile` to its path relative to the
/// project root.
pub fn filter_profile(profile: &str, files: &ProjectFiles) -> (r: Result<String>)
    ensures
        match r {
            Ok(s) => resolved_profile(*files, profile@) == Some(s@),
            Err(e) => resolved_profile(*files, profile@) is None && e is Validation,
        },
{
    let mut usr = owned("usr");
    push_str(&mut usr, "/home/profiles/");
    push_str(&mut usr, profile);
    if files.contains(usr.as_str()) {
        return Ok(usr);
    }
    let mut dnf = owned("dnf");
    push_str(&mut dnf, "/home/profiles/");
    push_str(&mut dnf, profile);
    if files.contains(dnf.as_str()) {
        return Ok(dnf);
    }
    let mut msg = owned("No user profile path found for profile \"");
    push_str(&mut msg, profile);
    push_str(&mut msg, "\" in usr and dnf declarations.");
    Err(NixError::validation(msg))
}

impl User {
    /// Builds a user account.
    ///
    /// The UID must lie in 1000..=64999 and be new; the login must be new;
    /// the profile must exist. On success the account is recorded in the
    /// UID tracker; an empty e-mail counts as none.
    #[verifier::loop_isolation(false)]
    pub fn build(config: UserBuildConfig<'_>) -> (r: Result<Self>)
        ensures
            r is Ok <==> {
                &&& MIN_UID <= config.uid <= MAX_UID
                &&& !old(config.uid_tracker)@.contains_key(config.uid)
                &&& !login_taken(old(config.uid_tracker)@, config.login@)
                &&& resolved_profile(*config.files, config.profile@) is Some
            },
            r is Err ==> r->Err_0 is Validation,
            (MIN_UID <= config.uid <= MAX_UID && !old(config.uid_tracker)@.contains_key(config.uid)
                && !login_taken(old(config.uid_tracker)@, config.login@)) ==> final(config.uid_tracker)@.dom()
                == old(config.uid_tracker)@.dom().insert(config.uid) && final(config.uid_tracker)@[config.uid]@
                == config.login@ && forall|u: u32| u != config.uid && old(config.uid_tracker)@.contains_key(u)
                ==> final(config.uid_tracker)@[u] == old(config.uid_tracker)@[u],
            !(MIN_UID <= config.uid <= MAX_UID && !old(config.uid_tracker)@.contains_key(config.uid)
                && !login_taken(old(config.uid_tracker)@, config.login@)) ==> final(config.uid_tracker)@
                == old(config.uid_tracker)@,
            r matches Ok(u) ==> {
                &&& u.login@ == config.login@
                &&& u.uid == config.uid
                &&& u.name@ == config.name@
                &&& match config.email {
                    Some(e) if e@.len() > 0 => u.email is Some && u.email->0@ == e@,
                    _ => u.email is None,
                }
                &&& Some(u.profile@) == resolved_profile(*config.files, config.profile@)
                &&& u.groups == config.groups
                &&& u.disabled == config.disabled
            },
    {
        let UserBuildConfig { login, uid, name, email, profile, groups, disabled, uid_tracker, files } = config;
        if uid < MIN_UID || uid > MAX_UID {
            let mut msg = owned("UID '");
            push_decimal_u64(&mut msg, uid as u64);
            push_str(&mut msg, "' out of bound, must be between 1000 and 64999");
            return Err(NixError::validation(msg));
        }
        broadcast use vstd::std_specs::hash::group_hash_axioms;
        match uid_tracker.get(&uid) {
            Some(existing) => {
                let mut msg = owned("Duplicated uid \"");
                push_decimal_u64(&mut msg, uid as u64);
                push_str(&mut msg, "\" for ");
                push_str(&mut msg, login);
                push_str(&mut msg, " and ");
                push_str(&mut msg, existing.as_str());
                return Err(NixError::validation(msg));
            },
            None => {},
        }
        let mut taken = false;
        let ghost m = uid_tracker@;
        let ghost s = vstd::std_specs::hash::spec_values_iter(&*uid_tracker).remaining().unref();
        assert(s.to_set() == m.values());
        for v in it: uid_tracker.values()
            invariant
                it.seq().unref() == s,
                s.to_set() == m.values(),
                uid_tracker@ == m,
                taken <==> exists|j: int| 0 <= j < it.index() && (#[trigger] s[j])@ == login@,
        {
            assert(s[it.index()] == *v);
            if str_eq(v.as_str(), login) {
                taken = true;
            }
        }
        proof {
            if taken {
                let j = choose|j: int| 0 <= j < s.len() && (#[trigger] s[j])@ == login@;
                assert(s.to_set().contains(s[j]));
                assert(m.values().contains(s[j]));
                let u = choose|u: u32| m.contains_key(u) && m[u] == s[j];
                assert(m[u]@ == login@);
            } else {
                if login_taken(m, login@) {
                    let u = choose|u: u32| m.contains_key(u) && #[trigger] m[u]@ == login@;
                    assert(m.values().contains(m[u]));
                    assert(s.to_set().contains(m[u]));
                    let j = choose|j: int| 0 <= j < s.len() && s[j] == m[u];
                    assert(s[j]@ == login@);
                }
            }
        }
        if taken {
            let mut msg = owned("Duplicated login \"");
            push_str(&mut msg, login);
            push_str(&mut msg, "\"");
            return Err(NixError::validation(msg));
        }
        uid_tracker.insert(uid, owned(login));
        let profile = filter_profile(profile, files)?;
        let email = match email {
            Some(e) => if chars_of(e).len() > 0 {
                Some(owned(e))
            } else {
                None
            },
            None => None,
        };
        Ok(User { login: owned(login), uid, name: owned(name), email, profile, groups, disabled })
    }

    /// Like `filter_profile`, but never fails: where no profile directory
    /// exists, the profile is taken to be `dnf/home/profiles/<profile>`.
    /// This is what the special maintenance user is given.
    pub fn filter_profile_unchecked(profile: &str, files: &ProjectFiles) -> (r: Result<String>)
        ensures
            r is Ok,
            r->Ok_0@ == unchecked_profile(*files, profile@),
    {
        match filter_profile(profile, files) {
            Ok(p) => Ok(p),
            Err(_) => {
                let mut p = owned("dnf/home/profiles/");
                push_str(&mut p, profile);
                Ok(p)
            },
        }
    }
}

/// The profile of `filter_profile_unchecked`: the resolved one, else the
/// path under `dnf/home/profiles/`.
pub open spec fn unchecked_profile(files: ProjectFiles, p: Seq<char>) -> Seq<char> {
    match resolved_profile(files, p) {
        Some(s) => s,
        None => "dnf/home/profiles/"@ + p,
    }
}

/// Law: once an account is recorded, both its UID and its login are
/// taken, so a later account with either is refused.
pub proof fn law_recorded_account_taken(tracker: Map<u32, String>, uid: u32, login: String)
    ensures
        tracker.insert(uid, login).contains_key(uid),
        login_taken(tracker.insert(uid, login), login@),
{
    let t = tracker.insert(uid, login);
    assert(t.contains_key(uid) && t[uid]@ == login@);
}

} // verus!
