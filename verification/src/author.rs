//! The identity whose activity is synchronized.

use crate::email::EmailAddress;
use crate::error::RepoError;
use vstd::prelude::*;

verus! {

/// A display name together with one or more email aliases. The first alias
/// is the signature email, used to stamp replayed commits.
pub struct Author {
    pub name: String,
    pub emails: Vec<EmailAddress>,
}

impl Author {
    /// At least one email alias is present.
    pub open spec fn wf(&self) -> bool {
        self.emails@.len() > 0
    }

    /// Builds the identity; fails exactly when `emails` is empty.
    pub fn new(name: String, emails: Vec<EmailAddress>) -> (r: Result<Author, RepoError>)
        ensures
            r is Ok <==> emails@.len() > 0,
            r matches Ok(author) ==> author == (Author { name, emails }) && author.wf(),
            r matches Err(e) ==> e is Validation,
    {
        if emails.len() > 0 {
            Ok(Author { name, emails })
        } else {
            Err(
                RepoError::Validation(
                    "An author requires at least one email address.".to_owned(),
                ),
            )
        }
    }

    /// The signature email: the first alias.
    pub fn signature_email(&self) -> (r: &EmailAddress)
        requires
            self.wf(),
        ensures
            *r == self.emails@[0],
    {
        &self.emails[0]
    }

    /// The display name.
    pub fn get_name(&self) -> (r: &str)
        ensures
            r@ == self.name@,
    {
        self.name.as_str()
    }

    /// The signature email as a string slice.
    pub fn get_email(&self) -> (r: &str)
        requires
            self.wf(),
        ensures
            r@ == self.emails@[0]@,
    {
        self.emails[0].0.as_str()
    }
}

} // verus!
