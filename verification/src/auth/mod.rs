//! Authentication and authorization by bearer token.
//!
//! The configuration lists, for each of the two groups, the user ids of the
//! group and the tokens of each user. Broadcasts are id'd by
//! `broadcaster_id/bchannel_id`. A broadcaster may only write broadcasts under
//! its own id. A reader may read all broadcasts.
//!
//! [`config`] holds the configuration and what makes it valid, [`registry`]
//! says what loading it comes to, [`laws`] what follows for every
//! configuration, and [`loading`] proves it step by step.

use crate::auth::laws::{built_from, lemma_from_config};
use crate::auth::registry::{
    lemma_from_config_wf, lemma_tokens_loaded, lemma_users_loaded, spec_auth_loaded,
    spec_from_config, spec_load_auth, spec_load_tokens, spec_load_users, spec_tokens_loaded,
    spec_users_loaded, Registry,
};
use crate::db::models::{Broadcaster, Reader};
use crate::error::{HandlerError, HandlerErrorKind, HandlerResult};
use vstd::hash_map::StringHashMap;
use vstd::prelude::*;
use vstd::string::*;

pub mod config;
pub mod laws;
pub mod loading;
pub mod registry;

pub use crate::auth::config::{
    AuthConfig, ConfigError, ConfigErrorView, TokenValue, TokensValue, UserEntry,
};

verus! {

/// Grouping/role of authorization
#[derive(Clone, Copy, Debug, PartialEq, Eq, Hash, Structural)]
pub enum Group {
    Broadcaster,
    Reader,
}

impl Group {
    pub open spec fn spec_config_name(self) -> Seq<char> {
        match self {
            Group::Broadcaster => "broadcaster_auth"@,
            Group::Reader => "reader_auth"@,
        }
    }

    /// Entry name in the configuration where the group's tokens are loaded from
    pub fn config_name(self) -> (name: &'static str)
        ensures
            name@ == self.spec_config_name(),
    {
        match self {
            Group::Broadcaster => "broadcaster_auth",
            Group::Reader => "reader_auth",
        }
    }
}

/// Whether `scheme` spells `bearer`, in upper or lower case letters.
pub open spec fn is_bearer(scheme: Seq<char>) -> bool {
    &&& scheme.len() == 6
    &&& (scheme[0] == 'b' || scheme[0] == 'B')
    &&& (scheme[1] == 'e' || scheme[1] == 'E')
    &&& (scheme[2] == 'a' || scheme[2] == 'A')
    &&& (scheme[3] == 'r' || scheme[3] == 'R')
    &&& (scheme[4] == 'e' || scheme[4] == 'E')
    &&& (scheme[5] == 'r' || scheme[5] == 'R')
}

/// The token of credentials of the form `Bearer <token>`: what follows the
/// scheme and the one space behind it. Other credentials hold no token.
pub open spec fn spec_bearer_token(credentials: Seq<char>) -> Option<Seq<char>> {
    if credentials.len() >= 7 && is_bearer(credentials.take(6)) && credentials[6] == ' ' {
        Some(credentials.skip(7))
    } else {
        None
    }
}

impl Registry {
    /// The user and the group that a token stands for.
    pub open spec fn lookup(self, token: Seq<char>) -> Option<(Seq<char>, Group)> {
        if self.users.contains_key(token) {
            Some((self.users[token], self.groups[self.users[token]]))
        } else {
            None
        }
    }

    /// The user and the group that credentials stand for: those of their
    /// token.
    pub open spec fn authenticated_user(self, credentials: Seq<char>) -> Option<
        (Seq<char>, Group),
    > {
        match spec_bearer_token(credentials) {
            None => None,
            Some(token) => self.lookup(token),
        }
    }
}

/// Why a caller is turned away.
pub enum Denial {
    /// The request has no credentials.
    MissingAuth,
    /// The credentials are not of the form `Bearer <token>`, or their token
    /// is unknown.
    InvalidAuth,
    /// The request names no broadcaster to write for.
    MissingBroadcastId,
    /// The caller is known and may not do what it asks for.
    Unauthorized,
}

impl Denial {
    /// Whether `kind` is the error that reports this denial.
    pub open spec fn is_reported_by(self, kind: HandlerErrorKind) -> bool {
        match self {
            Denial::MissingAuth => kind is MissingAuth,
            Denial::InvalidAuth => kind is InvalidAuth,
            Denial::MissingBroadcastId => kind matches HandlerErrorKind::InternalError(msg)
                && msg@ == "Could not get broadcast_id"@,
            Denial::Unauthorized => kind is Unauthorized,
        }
    }
}

/// Who the caller of a request is: the request has to carry credentials, and
/// the credentials have to stand for a user.
pub open spec fn spec_authenticated_user(reg: Registry, credentials: Option<Seq<char>>) -> Result<
    (Seq<char>, Group),
    Denial,
> {
    match credentials {
        None => Err(Denial::MissingAuth),
        Some(credentials) => match reg.authenticated_user(credentials) {
            None => Err(Denial::InvalidAuth),
            Some(user) => Ok(user),
        },
    }
}

/// Whether the caller may write the broadcasts of `for_broadcast_id`: it has
/// to be a broadcaster, and that very one. The result is the caller's id.
pub open spec fn spec_authorized_broadcaster(
    reg: Registry,
    credentials: Option<Seq<char>>,
    for_broadcast_id: Option<Seq<char>>,
) -> Result<Seq<char>, Denial> {
    match spec_authenticated_user(reg, credentials) {
        Err(denial) => Err(denial),
        Ok((id, group)) => match for_broadcast_id {
            None => Err(Denial::MissingBroadcastId),
            Some(for_broadcast_id) => if group == Group::Broadcaster && id == for_broadcast_id {
                Ok(id)
            } else {
                Err(Denial::Unauthorized)
            },
        },
    }
}

/// Whether the caller may read the broadcasts: it has to be a reader. The
/// result is the caller's id.
pub open spec fn spec_authorized_reader(reg: Registry, credentials: Option<Seq<char>>) -> Result<
    Seq<char>,
    Denial,
> {
    match spec_authenticated_user(reg, credentials) {
        Err(denial) => Err(denial),
        Ok((id, group)) => if group == Group::Reader {
            Ok(id)
        } else {
            Err(Denial::Unauthorized)
        },
    }
}

/// The characters of optional credentials.
pub open spec fn credentials_view(credentials: Option<&str>) -> Option<Seq<char>> {
    match credentials {
        None => None,
        Some(credentials) => Some(credentials@),
    }
}

/// The token of credentials of the form `Bearer <token>`.
pub fn bearer_token(credentials: &str) -> (token: Option<&str>)
    ensures
        match token {
            Some(token) => spec_bearer_token(credentials@) == Some(token@),
            None => spec_bearer_token(credentials@) is None,
        },
{
    let len = credentials.unicode_len();
    if len < 7 {
        return None;
    }
    let b = credentials.get_char(0);
    let e = credentials.get_char(1);
    let a = credentials.get_char(2);
    let r = credentials.get_char(3);
    let e2 = credentials.get_char(4);
    let r2 = credentials.get_char(5);
    let space = credentials.get_char(6);
    if (b == 'b' || b == 'B') && (e == 'e' || e == 'E') && (a == 'a' || a == 'A') && (r == 'r' || r
        == 'R') && (e2 == 'e' || e2 == 'E') && (r2 == 'r' || r2 == 'R') && space == ' ' {
        Some(credentials.substring_char(7, len))
    } else {
        None
    }
}

pub struct BearerTokenAuthenticator {
    users: StringHashMap<String>,
    groups: StringHashMap<Group>,
}

/// The registry that two tables stand for.
pub open spec fn registry_of(users: StringHashMap<String>, groups: StringHashMap<Group>) -> Registry {
    Registry { users: users@.map_values(|user_id: String| user_id@), groups: groups@ }
}

impl View for BearerTokenAuthenticator {
    type V = Registry;

    closed spec fn view(&self) -> Registry {
        registry_of(self.users, self.groups)
    }
}

impl BearerTokenAuthenticator {
    #[verifier::type_invariant]
    closed spec fn inv(&self) -> bool {
        self@.wf()
    }

    /// The user and the group of a token, if the token is registered.
    pub fn lookup(&self, token: &str) -> (found: Option<(String, Group)>)
        ensures
            match found {
                Some((user_id, group)) => self@.lookup(token@) == Some((user_id@, group)),
                None => self@.lookup(token@) is None,
            },
    {
        proof {
            use_type_invariant(self);
        }
        let user_id = match self.users.get(token) {
            None => {
                return None;
            },
            Some(user_id) => user_id,
        };
        match self.groups.get(user_id.as_str()) {
            Some(group) => Some((user_id.clone(), *group)),
            None => None,
        }
    }

    /// Determine if Bearer token header is for an authenticated user
    pub fn authenticated_user(&self, credentials: &str) -> (r: HandlerResult<(String, Group)>)
        ensures
            match r {
                Ok((user_id, group)) => self@.authenticated_user(credentials@) == Some(
                    (user_id@, group),
                ),
                Err(e) => self@.authenticated_user(credentials@) is None && e.kind() is InvalidAuth,
            },
    {
        let token = match bearer_token(credentials) {
            None => {
                return Err(HandlerError::from(HandlerErrorKind::InvalidAuth));
            },
            Some(token) => token,
        };
        match self.lookup(token) {
            None => Err(HandlerError::from(HandlerErrorKind::InvalidAuth)),
            Some(user) => Ok(user),
        }
    }

    /// Loads the tokens of one user into `users`, up to the first that
    /// cannot be loaded. Whatever comes of it, no token that was registered
    /// before is given to another user.
    fn load_tokens(
        users: &mut StringHashMap<String>,
        groups: &StringHashMap<Group>,
        user_id: &String,
        group: Group,
        tokens: &Vec<TokenValue>,
    ) -> (r: Result<(), ConfigError>)
        ensures
            match r {
                Ok(()) => spec_load_tokens(
                    registry_of(*old(users), *groups),
                    group,
                    user_id@,
                    tokens@,
                ) == Ok::<Registry, ConfigErrorView>(registry_of(*final(users), *groups)),
                Err(e) => spec_load_tokens(
                    registry_of(*old(users), *groups),
                    group,
                    user_id@,
                    tokens@,
                ) == Err::<Registry, ConfigErrorView>(e@),
            },
            registry_of(*final(users), *groups) == spec_tokens_loaded(
                registry_of(*old(users), *groups),
                user_id@,
                tokens@,
            ),
            registry_of(*final(users), *groups).keeps(registry_of(*old(users), *groups)),
    {
        proof {
            lemma_tokens_loaded(registry_of(*users, *groups), group, user_id@, tokens@);
        }
        let mut i: usize = 0;
        assert(tokens@.skip(0) =~= tokens@);
        while i < tokens.len()
            invariant
                i <= tokens@.len(),
                spec_load_tokens(registry_of(*old(users), *groups), group, user_id@, tokens@)
                    == spec_load_tokens(
                    registry_of(*users, *groups),
                    group,
                    user_id@,
                    tokens@.skip(i as int),
                ),
                spec_tokens_loaded(registry_of(*old(users), *groups), user_id@, tokens@)
                    == spec_tokens_loaded(
                    registry_of(*users, *groups),
                    user_id@,
                    tokens@.skip(i as int),
                ),
                spec_tokens_loaded(registry_of(*old(users), *groups), user_id@, tokens@).keeps(
                    registry_of(*old(users), *groups),
                ),
            decreases tokens@.len() - i,
        {
            proof {
                assert(tokens@.skip(i as int)[0] == tokens@[i as int]);
                assert(tokens@.skip(i as int).drop_first() =~= tokens@.skip(i + 1));
            }
            match &tokens[i] {
                TokenValue::Other => {
                    return Err(ConfigError::InvalidToken { group, user_id: user_id.clone() });
                },
                TokenValue::Token(token) => {
                    match users.get(token.as_str()) {
                        Some(owner) => {
                            return Err(
                                ConfigError::DuplicateToken {
                                    group,
                                    user_id: user_id.clone(),
                                    owner: owner.clone(),
                                    token: token.clone(),
                                },
                            );
                        },
                        None => {},
                    }
                    let ghost before = registry_of(*users, *groups);
                    users.insert(token.clone(), user_id.clone());
                    assert(registry_of(*users, *groups).users =~= before.users.insert(
                        token@,
                        user_id@,
                    ));
                    assert(registry_of(*users, *groups) == before.with_token(token@, user_id@));
                },
            }
            i = i + 1;
        }
        Ok(())
    }

    /// Load the Group's auth configuration, up to the first entry that
    /// cannot be loaded. A missing table leaves both maps as they were.
    /// Whatever comes of it, no user of before changes its group and no
    /// token of before its user.
    fn load_auth_from_config(
        users: &mut StringHashMap<String>,
        groups: &mut StringHashMap<Group>,
        group: Group,
        config: &AuthConfig,
    ) -> (r: Result<(), ConfigError>)
        ensures
            match r {
                Ok(()) => spec_load_auth(
                    registry_of(*old(users), *old(groups)),
                    group,
                    config.table(group),
                ) == Ok::<Registry, ConfigErrorView>(registry_of(*final(users), *final(groups))),
                Err(e) => spec_load_auth(
                    registry_of(*old(users), *old(groups)),
                    group,
                    config.table(group),
                ) == Err::<Registry, ConfigErrorView>(e@),
            },
            registry_of(*final(users), *final(groups)) == spec_auth_loaded(
                registry_of(*old(users), *old(groups)),
                group,
                config.table(group),
            ),
            config.table(group) is None ==> registry_of(*final(users), *final(groups))
                == registry_of(*old(users), *old(groups)),
            registry_of(*final(users), *final(groups)).keeps(
                registry_of(*old(users), *old(groups)),
            ),
    {
        let table = match group {
            Group::Broadcaster => &config.broadcaster_auth,
            Group::Reader => &config.reader_auth,
        };
        let entries = match table {
            None => {
                return Err(ConfigError::MissingTable { group });
            },
            Some(entries) => entries,
        };
        proof {
            lemma_users_loaded(registry_of(*users, *groups), group, entries@);
        }
        let mut i: usize = 0;
        assert(entries@.skip(0) =~= entries@);
        while i < entries.len()
            invariant
                i <= entries@.len(),
                config.table(group) == Some(*entries),
                spec_load_users(registry_of(*old(users), *old(groups)), group, entries@)
                    == spec_load_users(
                    registry_of(*users, *groups),
                    group,
                    entries@.skip(i as int),
                ),
                spec_users_loaded(registry_of(*old(users), *old(groups)), group, entries@)
                    == spec_users_loaded(
                    registry_of(*users, *groups),
                    group,
                    entries@.skip(i as int),
                ),
                spec_users_loaded(registry_of(*old(users), *old(groups)), group, entries@).keeps(
                    registry_of(*old(users), *old(groups)),
                ),
            decreases entries@.len() - i,
        {
            proof {
                assert(entries@.skip(i as int)[0] == entries@[i as int]);
                assert(entries@.skip(i as int).drop_first() =~= entries@.skip(i + 1));
            }
            let entry = &entries[i];
            match groups.get(entry.user_id.as_str()) {
                Some(dupe) => {
                    return Err(
                        ConfigError::DuplicateUser {
                            group,
                            user_id: entry.user_id.clone(),
                            dupe: *dupe,
                        },
                    );
                },
                None => {},
            }
            let ghost before = registry_of(*users, *groups);
            groups.insert(entry.user_id.clone(), group);
            assert(registry_of(*users, *groups) == before.with_user(entry.user_id@, group));
            match &entry.tokens {
                TokensValue::Other => {
                    return Err(
                        ConfigError::InvalidTokenArray { group, user_id: entry.user_id.clone() },
                    );
                },
                TokensValue::Array(tokens) => {
                    match Self::load_tokens(users, groups, &entry.user_id, group, tokens) {
                        Err(e) => {
                            return Err(e);
                        },
                        Ok(()) => {},
                    }
                },
            }
            i = i + 1;
        }
        Ok(())
    }

    /// Builds the authenticator of a configuration: the broadcasters are
    /// loaded first, then the readers.
    pub fn from_config(config: &AuthConfig) -> (r: Result<BearerTokenAuthenticator, ConfigError>)
        ensures
            r is Ok <==> config.valid(),
            match r {
                Ok(authenticator) => spec_from_config(*config) == Ok::<Registry, ConfigErrorView>(
                    authenticator@,
                ) && built_from(*config, authenticator@) && authenticator@.wf(),
                Err(e) => spec_from_config(*config) == Err::<Registry, ConfigErrorView>(e@),
            },
    {
        proof {
            lemma_from_config(*config);
        }
        let mut users: StringHashMap<String> = StringHashMap::new();
        let mut groups: StringHashMap<Group> = StringHashMap::new();
        assert(registry_of(users, groups).users =~= Map::empty());
        assert(registry_of(users, groups) == Registry::empty());
        match Self::load_auth_from_config(&mut users, &mut groups, Group::Broadcaster, config) {
            Err(e) => {
                return Err(e);
            },
            Ok(()) => {},
        }
        match Self::load_auth_from_config(&mut users, &mut groups, Group::Reader, config) {
            Err(e) => {
                return Err(e);
            },
            Ok(()) => {},
        }
        proof {
            lemma_from_config_wf(*config);
        }
        Ok(BearerTokenAuthenticator { users, groups })
    }
}

/// Who the caller of a request is, by the request's `Authorization` header.
pub fn authenticated_user(authenticator: &BearerTokenAuthenticator, credentials: Option<&str>) -> (r:
    HandlerResult<(String, Group)>)
    ensures
        match r {
            Ok((user_id, group)) => spec_authenticated_user(
                authenticator@,
                credentials_view(credentials),
            ) == Ok::<(Seq<char>, Group), Denial>((user_id@, group)),
            Err(e) => spec_authenticated_user(authenticator@, credentials_view(credentials))
                matches Err(denial) && denial.is_reported_by(*e.kind()),
        },
{
    match credentials {
        None => Err(HandlerError::from(HandlerErrorKind::MissingAuth)),
        Some(credentials) => authenticator.authenticated_user(credentials),
    }
}

/// The caller of a request as a broadcaster, if it may write the broadcasts
/// of `for_broadcast_id`, the broadcaster that the request's path names.
pub fn authorized_broadcaster(
    authenticator: &BearerTokenAuthenticator,
    credentials: Option<&str>,
    for_broadcast_id: Option<&str>,
) -> (r: HandlerResult<Broadcaster>)
    ensures
        match r {
            Ok(broadcaster) => spec_authorized_broadcaster(
                authenticator@,
                credentials_view(credentials),
                credentials_view(for_broadcast_id),
            ) == Ok::<Seq<char>, Denial>(broadcaster.id@),
            Err(e) => spec_authorized_broadcaster(
                authenticator@,
                credentials_view(credentials),
                credentials_view(for_broadcast_id),
            ) matches Err(denial) && denial.is_reported_by(*e.kind()),
        },
{
    let (id, group) = match authenticated_user(authenticator, credentials) {
        Err(e) => {
            return Err(e);
        },
        Ok(user) => user,
    };
    // the path should hold the id whenever a route calls this
    let for_broadcast_id = match for_broadcast_id {
        None => {
            return Err(HandlerError::internal(String::from_str("Could not get broadcast_id")));
        },
        Some(for_broadcast_id) => String::from_str(for_broadcast_id),
    };
    if group == Group::Broadcaster && id == for_broadcast_id {
        // Authorized
        Ok(Broadcaster::new(id))
    } else {
        Err(HandlerError::from(HandlerErrorKind::Unauthorized))
    }
}

/// The caller of a request as a reader, if it may read the broadcasts.
pub fn authorized_reader(authenticator: &BearerTokenAuthenticator, credentials: Option<&str>) -> (r:
    HandlerResult<Reader>)
    ensures
        match r {
            Ok(reader) => spec_authorized_reader(authenticator@, credentials_view(credentials))
                == Ok::<Seq<char>, Denial>(reader.id@),
            Err(e) => spec_authorized_reader(authenticator@, credentials_view(credentials))
                matches Err(denial) && denial.is_reported_by(*e.kind()),
        },
{
    let (id, group) = match authenticated_user(authenticator, credentials) {
        Err(e) => {
            return Err(e);
        },
        Ok(user) => user,
    };
    if group == Group::Reader {
        // Authorized
        Ok(Reader::new(id))
    } else {
        Err(HandlerError::from(HandlerErrorKind::Unauthorized))
    }
}

} // verus!
