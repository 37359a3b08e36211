//! The server's configuration: database coordinates, the listening port,
//! and the moderation policy the broker enforces at runtime.

use vstd::prelude::*;

verus! {

/// Runtime configuration; the broker is its sole mutator.
#[derive(Debug, Clone)]
pub struct Config {
    pub db_host: String,
    pub db_port: String,
    pub db_user: String,
    pub db_pass: String,
    pub db_dbname: String,
    pub port: Option<u16>,
    /// Usernames with operator rights.
    pub operators: Vec<String>,
    pub whitelist_on: bool,
    pub whitelist: Vec<String>,
    pub banned_users: Vec<String>,
    pub allow_new_accounts: bool,
}

impl Config {
    /// Whether `u` is named an operator.
    pub open spec fn spec_is_operator(&self, u: Seq<char>) -> bool {
        exists|i: int| 0 <= i < self.operators@.len() && self.operators@[i]@ == u
    }

    pub fn is_operator(&self, u: &str) -> (r: bool)
        ensures
            r == self.spec_is_operator(u@),
    {
        let n = self.operators.len();
        let mut i: usize = 0;
        while i < n
            invariant
                0 <= i <= n == self.operators@.len(),
                forall|k: int| 0 <= k < i ==> self.operators@[k]@ != u@,
            decreases n - i,
        {
            if crate::utils::str_eq(self.operators[i].as_str(), u) {
                assert(self.operators@[i as int]@ == u@);
                return true;
            }
            i += 1;
        }
        false
    }
}

impl Default for Config {
    /// Empty database coordinates, the well-known port, no operators, the
    /// whitelist off, and account creation allowed.
    fn default() -> (r: Self)
        ensures
            r.port == Some(crate::DEFAULT_PORT),
            r.operators@.len() == 0,
            !r.whitelist_on,
            r.whitelist@.len() == 0,
            r.banned_users@.len() == 0,
            r.allow_new_accounts,
            r.db_host@.len() == 0,
            r.db_port@.len() == 0,
            r.db_user@.len() == 0,
            r.db_pass@.len() == 0,
            r.db_dbname@.len() == 0,
    {
        Config {
            db_host: String::new(),
            db_port: String::new(),
            db_user: String::new(),
            db_pass: String::new(),
            db_dbname: String::new(),
            port: Some(crate::DEFAULT_PORT),
            operators: Vec::new(),
            whitelist_on: false,
            whitelist: Vec::new(),
            banned_users: Vec::new(),
            allow_new_accounts: true,
        }
    }
}

} // verus!
