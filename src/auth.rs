use vstd::prelude::*;

use crate::text::same_text;

verus! {

/// When every issued token expires, in seconds since the epoch.
pub const TOKEN_EXPIRY: usize = 2_000_000_000;

/// What a bearer token says of its holder.
pub struct Claims {
    pub sub: i32,
    pub is_admin: bool,
    pub exp: usize,
}

/// The answer to a successful authorization.
pub struct Body {
    access_token: String,
    token_type: String,
}

/// The credentials a client authorizes with.
pub struct Payload {
    client_id: String,
    client_secret: String,
}

/// A tenant's account as the control plane stores it.
pub struct UserRecord {
    pub id: i32,
    pub name: String,
    pub client_id: String,
    pub client_secret: String,
    pub latest_deployment: Option<String>,
}

/// The account a request's path names, once access to it was granted.
pub struct User(pub UserRecord);

/// Why access to an account was refused.
#[derive(Clone, Copy, Debug, PartialEq, Eq, Structural)]
pub enum Error {
    NotFound,
    Unauthorized,
}

/// What to do with a client's credentials.
#[derive(Clone, Copy, Debug, PartialEq, Eq, Structural)]
pub enum CredentialCheck {
    /// One of them is empty: answer `400`.
    Missing,
    /// Both are the administrator's: issue an administrator token.
    Admin,
    /// Look the tenant up by these credentials.
    LookUp,
}

impl Claims {
    /// The claims of the administrator's token.
    pub fn admin() -> (c: Claims)
        ensures
            c.sub == 0,
            c.is_admin,
            c.exp == TOKEN_EXPIRY,
    {
        Claims { sub: 0, is_admin: true, exp: TOKEN_EXPIRY }
    }

    /// The claims of a tenant's token.
    pub fn for_user(id: i32) -> (c: Claims)
        ensures
            c.sub == id,
            !c.is_admin,
            c.exp == TOKEN_EXPIRY,
    {
        Claims { sub: id, is_admin: false, exp: TOKEN_EXPIRY }
    }
}

impl Body {
    pub closed spec fn spec_access_token(&self) -> Seq<char> {
        self.access_token@
    }

    pub closed spec fn spec_token_type(&self) -> Seq<char> {
        self.token_type@
    }

    /// A bearer-token answer carrying `access_token`.
    pub fn new(access_token: String) -> (b: Body)
        ensures
            b.spec_access_token() == access_token@,
            b.spec_token_type() == "Bearer"@,
    {
        Body { access_token, token_type: String::from_str("Bearer") }
    }

    pub fn access_token(&self) -> (s: &str)
        ensures
            s@ == self.spec_access_token(),
    {
        self.access_token.as_str()
    }

    pub fn token_type(&self) -> (s: &str)
        ensures
            s@ == self.spec_token_type(),
    {
        self.token_type.as_str()
    }
}

impl Payload {
    pub closed spec fn spec_client_id(&self) -> Seq<char> {
        self.client_id@
    }

    pub closed spec fn spec_client_secret(&self) -> Seq<char> {
        self.client_secret@
    }

    pub fn new(client_id: String, client_secret: String) -> (p: Payload)
        ensures
            p.spec_client_id() == client_id@,
            p.spec_client_secret() == client_secret@,
    {
        Payload { client_id, client_secret }
    }

    pub fn client_id(&self) -> (s: &str)
        ensures
            s@ == self.spec_client_id(),
    {
        self.client_id.as_str()
    }

    pub fn client_secret(&self) -> (s: &str)
        ensures
            s@ == self.spec_client_secret(),
    {
        self.client_secret.as_str()
    }

    /// Decides what the credentials lead to. Only a client that presents
    /// both the administrator's id and the administrator's secret is the
    /// administrator.
    pub fn check(&self, admin_client_id: &str, admin_client_secret: &str) -> (r: CredentialCheck)
        ensures
            r == if self.spec_client_id().len() == 0 || self.spec_client_secret().len() == 0 {
                CredentialCheck::Missing
            } else if self.spec_client_id() == admin_client_id@ && self.spec_client_secret()
                == admin_client_secret@ {
                CredentialCheck::Admin
            } else {
                CredentialCheck::LookUp
            },
    {
        if self.client_id.unicode_len() == 0 || self.client_secret.unicode_len() == 0 {
            CredentialCheck::Missing
        } else if same_text(self.client_id.as_str(), admin_client_id) && same_text(
            self.client_secret.as_str(),
            admin_client_secret,
        ) {
            CredentialCheck::Admin
        } else {
            CredentialCheck::LookUp
        }
    }
}

impl Error {
    /// The status and message a refusal is answered with.
    pub fn into_response(&self) -> (r: (u16, String))
        ensures
            r.0 == match self {
                Error::NotFound => 404u16,
                Error::Unauthorized => 401u16,
            },
            r.1@ == match self {
                Error::NotFound => "This user doesn't exist"@,
                Error::Unauthorized => "Not authorized to access this user"@,
            },
    {
        match self {
            Error::NotFound => (404, String::from_str("This user doesn't exist")),
            Error::Unauthorized => (401, String::from_str("Not authorized to access this user")),
        }
    }
}

/// Whether a token's holder may act on the account with id `id`: its own
/// account, or any account for the administrator.
pub fn authorize_access(id: i32, claims: Option<&Claims>) -> (r: Result<(), Error>)
    ensures
        r == match claims {
            None => Err::<(), Error>(Error::Unauthorized),
            Some(c) => if c.sub == id || c.is_admin {
                Ok::<(), Error>(())
            } else {
                Err(Error::Unauthorized)
            },
        },
{
    match claims {
        None => Err(Error::Unauthorized),
        Some(c) => if c.sub == id || c.is_admin {
            Ok(())
        } else {
            Err(Error::Unauthorized)
        },
    }
}

/// Whether a token lets its holder into the administrator's routes.
pub fn is_admin(claims: Option<&Claims>) -> (r: bool)
    ensures
        r == match claims {
            None => false,
            Some(c) => c.is_admin,
        },
{
    match claims {
        None => false,
        Some(c) => c.is_admin,
    }
}

impl User {
    /// The account found for an authorized request, or `NotFound`.
    pub fn from_lookup(found: Option<UserRecord>) -> (r: Result<User, Error>)
        ensures
            match found {
                Some(u) => r matches Ok(User(v)) && v == u,
                None => r matches Err(Error::NotFound),
            },
    {
        match found {
            Some(u) => Ok(User(u)),
            None => Err(Error::NotFound),
        }
    }
}

} // verus!
