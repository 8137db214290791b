//! User account management: a struct with business-rule methods.

use vstd::prelude::*;

verus! {

/// A user account.
#[derive(Debug)]
pub struct User {
    /// The account's email address.
    pub email: String,
    /// The display name.
    pub name: String,
    /// Whether the account has been verified by a successful login.
    pub is_verified: bool,
    /// How many times the user has logged in.
    pub login_count: u32,
}

impl User {
    /// A fresh account: unverified, with no logins yet.
    pub fn new(email: String, name: String) -> (r: User)
        ensures
            r.email@ == email@,
            r.name@ == name@,
            !r.is_verified,
            r.login_count == 0,
    {
        User { email, name, is_verified: false, login_count: 0 }
    }

    /// The display form: `{name} ({email})`.
    pub fn display_name(&self) -> (r: String)
        ensures
            r@ == self.name@ + " ("@ + self.email@ + ")"@,
    {
        let mut out = self.name.clone();
        out.append(" (");
        out.append(self.email.as_str());
        out.append(")");
        out
    }

    /// Records a successful login: the count grows by one and the account
    /// becomes verified.
    pub fn record_login(&mut self)
        requires
            old(self).login_count < u32::MAX,
        ensures
            final(self).login_count == old(self).login_count + 1,
            final(self).is_verified,
            final(self).email == old(self).email,
            final(self).name == old(self).name,
    {
        self.login_count = self.login_count + 1;
        self.is_verified = true;
    }

    /// Premium features need a verified account with at least five logins.
    pub fn can_access_premium(&self) -> (r: bool)
        ensures
            r == (self.is_verified && self.login_count >= 5),
    {
        self.is_verified && self.login_count >= 5
    }
}

} // verus!
