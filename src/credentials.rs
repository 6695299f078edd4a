use vstd::prelude::*;

verus! {

/// The kind of helper program to use.
pub enum Kind {
    /// The built-in git-credential helper program, part of any git distribution.
    GitCredential,
}

/// Additional context to be passed to the credentials helper.
#[derive(Debug, Clone)]
pub struct Context {
    /// The protocol over which the credential will be used (e.g., https).
    pub protocol: Option<String>,
    /// The remote hostname for a network credential, with the port if one was given.
    pub host: Option<String>,
    /// The path with which the credential will be used.
    pub path: Option<Vec<u8>>,
    /// The credential's username, if one is already known.
    pub username: Option<String>,
    /// The credential's password, if it is to be stored.
    pub password: Option<String>,
    /// A URL whose parts stand for protocol, host and path.
    pub url: Option<Vec<u8>>,
}

/// The action to perform by the credentials helper.
#[derive(Debug, Clone)]
pub enum Action {
    /// Provide credentials for the given context, which must include the repository url.
    Get(Context),
    /// Approve the credentials identified by the previous helper output.
    Store(Vec<u8>),
    /// Reject the credentials identified by the previous helper output.
    Erase(Vec<u8>),
}

impl Action {
    /// A `Get` action whose context holds `url` and nothing else.
    pub fn get_for_url(url: Vec<u8>) -> (r: Action)
        ensures
            r matches Action::Get(c) && c.url == Some(url) && c.protocol.is_none()
                && c.host.is_none() && c.path.is_none() && c.username.is_none()
                && c.password.is_none(),
    {
        Action::Get(
            Context {
                protocol: None,
                host: None,
                path: None,
                username: None,
                password: None,
                url: Some(url),
            },
        )
    }

    /// The payload of a store or erase action.
    pub fn payload(&self) -> (r: Option<&[u8]>)
        ensures
            match *self {
                Action::Get(_) => r.is_none(),
                Action::Store(p) => r.is_some() && r.unwrap()@ == p@,
                Action::Erase(p) => r.is_some() && r.unwrap()@ == p@,
            },
    {
        match self {
            Action::Get(_) => None,
            Action::Store(p) => Some(p.as_slice()),
            Action::Erase(p) => Some(p.as_slice()),
        }
    }

    /// Whether this action expects output from the helper.
    pub fn expects_output(&self) -> (r: bool)
        ensures
            r == (*self is Get),
    {
        matches!(self, Action::Get(_))
    }

    /// The argument that names this action to the helper; `is_custom` is true
    /// for a custom helper program rather than the built-in one.
    pub fn as_helper_arg(&self, is_custom: bool) -> (r: &'static str)
        ensures
            r@ == helper_arg(*self, is_custom),
    {
        proof {
            reveal_strlit("get");
            reveal_strlit("fill");
            reveal_strlit("store");
            reveal_strlit("approve");
            reveal_strlit("erase");
            reveal_strlit("reject");
        }
        match self {
            Action::Get(_) => if is_custom { "get" } else { "fill" },
            Action::Store(_) => if is_custom { "store" } else { "approve" },
            Action::Erase(_) => if is_custom { "erase" } else { "reject" },
        }
    }
}

/// The helper argument of `a`: the custom helper protocol's verb, or the
/// verb of the built-in `git credential` program.
pub open spec fn helper_arg(a: Action, is_custom: bool) -> Seq<char> {
    match a {
        Action::Get(_) => if is_custom { seq!['g', 'e', 't'] } else { seq!['f', 'i', 'l', 'l'] },
        Action::Store(_) => if is_custom {
            seq!['s', 't', 'o', 'r', 'e']
        } else {
            seq!['a', 'p', 'p', 'r', 'o', 'v', 'e']
        },
        Action::Erase(_) => if is_custom {
            seq!['e', 'r', 'a', 's', 'e']
        } else {
            seq!['r', 'e', 'j', 'e', 'c', 't']
        },
    }
}

/// A handle to store or erase the outcome of the initial action.
#[derive(Debug, Clone)]
pub struct NextAction {
    pub previous_output: Vec<u8>,
}

impl NextAction {
    /// Approve the result of the previous action and store it for lookup.
    pub fn store(self) -> (r: Action)
        ensures
            r == Action::Store(self.previous_output),
    {
        Action::Store(self.previous_output)
    }

    /// Reject the result of the previous action and erase it.
    pub fn erase(self) -> (r: Action)
        ensures
            r == Action::Erase(self.previous_output),
    {
        Action::Erase(self.previous_output)
    }
}

} // verus!
