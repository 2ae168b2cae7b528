//! Credential checking: a linear equality check of a supplied
//! username/password pair against the small configured set.

use vstd::prelude::*;

use crate::paths::str_eq;

verus! {

/// One configured username/password pair.
pub struct UserCred {
    /// The username.
    pub user: String,
    /// The password.
    pub pass: String,
}

/// The configured users. Loading them from the process environment is
/// the caller's business; the service only checks pairs against them.
pub struct AuthService {
    users: Vec<UserCred>,
}

impl AuthService {
    /// The configured pairs.
    pub closed spec fn users(self) -> Seq<UserCred> {
        self.users@
    }

    /// Builds the service over the given pairs.
    pub fn new(users: Vec<UserCred>) -> (s: AuthService)
        ensures
            s.users() == users@,
    {
        AuthService { users }
    }

    /// True exactly when some configured pair matches both the supplied
    /// user id and the supplied password.
    pub fn check_credentials(&self, user_id: &str, user_pass: &str) -> (r: bool)
        ensures
            r == exists|i: int|
                0 <= i < self.users().len() && (#[trigger] self.users()[i]).user@ == user_id@
                    && self.users()[i].pass@ == user_pass@,
    {
        let mut i: usize = 0;
        while i < self.users.len()
            invariant
                0 <= i <= self.users().len(),
                forall|j: int|
                    0 <= j < i ==> !((#[trigger] self.users()[j]).user@ == user_id@
                        && self.users()[j].pass@ == user_pass@),
            decreases self.users().len() - i,
        {
            let cred = &self.users[i];
            if str_eq(cred.user.as_str(), user_id) && str_eq(cred.pass.as_str(), user_pass) {
                return true;
            }
            i = i + 1;
        }
        false
    }
}

} // verus!
