//! The registry of an authenticator, and what loading a configuration into
//! it comes to: entry by entry and token by token, up to the first that
//! cannot be loaded.

use crate::auth::config::{AuthConfig, ConfigErrorView, TokenValue, TokensValue, UserEntry};
use crate::auth::Group;
use vstd::prelude::*;

verus! {

/// The two tables of an authenticator: the user of each token, and the group
/// of each user.
pub struct Registry {
    pub users: Map<Seq<char>, Seq<char>>,
    pub groups: Map<Seq<char>, Group>,
}

impl Registry {
    pub open spec fn empty() -> Registry {
        Registry { users: Map::empty(), groups: Map::empty() }
    }

    pub open spec fn with_user(self, user_id: Seq<char>, group: Group) -> Registry {
        Registry { users: self.users, groups: self.groups.insert(user_id, group) }
    }

    pub open spec fn with_token(self, token: Seq<char>, user_id: Seq<char>) -> Registry {
        Registry { users: self.users.insert(token, user_id), groups: self.groups }
    }

    /// Every token belongs to a user that has a group.
    pub open spec fn wf(self) -> bool {
        forall|token: Seq<char>| #[trigger]
            self.users.contains_key(token) ==> self.groups.contains_key(self.users[token])
    }

    /// Whether this registry holds all that `before` held, as `before`
    /// held it: each token for its user, each user under its group.
    pub open spec fn keeps(self, before: Registry) -> bool {
        &&& forall|token: Seq<char>| #[trigger]
            before.users.contains_key(token) ==> self.users.contains_key(token)
                && self.users[token] == before.users[token]
        &&& forall|user_id: Seq<char>| #[trigger]
            before.groups.contains_key(user_id) ==> self.groups.contains_key(user_id)
                && self.groups[user_id] == before.groups[user_id]
    }
}

/// Registers the tokens of `user_id` one after the other. The first element
/// that is no string, or that is a token registered before, ends the loading
/// with its error.
pub open spec fn spec_load_tokens(
    reg: Registry,
    group: Group,
    user_id: Seq<char>,
    tokens: Seq<TokenValue>,
) -> Result<Registry, ConfigErrorView>
    decreases tokens.len(),
{
    if tokens.len() == 0 {
        Ok(reg)
    } else {
        match tokens[0] {
            TokenValue::Other => Err(ConfigErrorView::InvalidToken { group, user_id }),
            TokenValue::Token(token) => {
                if reg.users.contains_key(token@) {
                    Err(
                        ConfigErrorView::DuplicateToken {
                            group,
                            user_id,
                            owner: reg.users[token@],
                            token: token@,
                        },
                    )
                } else {
                    spec_load_tokens(
                        reg.with_token(token@, user_id),
                        group,
                        user_id,
                        tokens.drop_first(),
                    )
                }
            },
        }
    }
}

/// The registry as the loading of a user's tokens leaves it, whether it went
/// well or not: with the tokens that stand before the first element that
/// cannot be loaded, and with nothing of that element and of those behind
/// it.
pub open spec fn spec_tokens_loaded(
    reg: Registry,
    user_id: Seq<char>,
    tokens: Seq<TokenValue>,
) -> Registry
    decreases tokens.len(),
{
    if tokens.len() == 0 {
        reg
    } else {
        match tokens[0] {
            TokenValue::Other => reg,
            TokenValue::Token(token) => {
                if reg.users.contains_key(token@) {
                    reg
                } else {
                    spec_tokens_loaded(
                        reg.with_token(token@, user_id),
                        user_id,
                        tokens.drop_first(),
                    )
                }
            },
        }
    }
}

/// Registers the users of a group one after the other, each with its tokens.
/// The first user that has a group already, or whose value is no list, or
/// whose tokens fail to load, ends the loading with its error.
pub open spec fn spec_load_users(reg: Registry, group: Group, entries: Seq<UserEntry>) -> Result<
    Registry,
    ConfigErrorView,
>
    decreases entries.len(),
{
    if entries.len() == 0 {
        Ok(reg)
    } else {
        let entry = entries[0];
        if reg.groups.contains_key(entry.user_id@) {
            Err(
                ConfigErrorView::DuplicateUser {
                    group,
                    user_id: entry.user_id@,
                    dupe: reg.groups[entry.user_id@],
                },
            )
        } else {
            match entry.tokens {
                TokensValue::Other => Err(
                    ConfigErrorView::InvalidTokenArray { group, user_id: entry.user_id@ },
                ),
                TokensValue::Array(tokens) => match spec_load_tokens(
                    reg.with_user(entry.user_id@, group),
                    group,
                    entry.user_id@,
                    tokens@,
                ) {
                    Err(e) => Err(e),
                    Ok(loaded) => spec_load_users(loaded, group, entries.drop_first()),
                },
            }
        }
    }
}

/// The registry as the loading of a group's users leaves it, whether it went
/// well or not: with the entries that stand before the first that cannot
/// be loaded. Of that entry it holds nothing where its user has a group
/// already, the user alone where its value is no list, and else the user
/// with the tokens that stand before the one that cannot be loaded.
pub open spec fn spec_users_loaded(reg: Registry, group: Group, entries: Seq<UserEntry>) -> Registry
    decreases entries.len(),
{
    if entries.len() == 0 {
        reg
    } else {
        let entry = entries[0];
        if reg.groups.contains_key(entry.user_id@) {
            reg
        } else {
            let with_user = reg.with_user(entry.user_id@, group);
            match entry.tokens {
                TokensValue::Other => with_user,
                TokensValue::Array(tokens) => {
                    let loaded = spec_tokens_loaded(with_user, entry.user_id@, tokens@);
                    if spec_load_tokens(with_user, group, entry.user_id@, tokens@) is Ok {
                        spec_users_loaded(loaded, group, entries.drop_first())
                    } else {
                        loaded
                    }
                },
            }
        }
    }
}

/// The registry as the loading of a group's table leaves it: as it was
/// where the table is missing.
pub open spec fn spec_auth_loaded(reg: Registry, group: Group, table: Option<Vec<UserEntry>>) -> Registry {
    match table {
        None => reg,
        Some(entries) => spec_users_loaded(reg, group, entries@),
    }
}

/// Loads the table of a group, which has to be there.
pub open spec fn spec_load_auth(reg: Registry, group: Group, table: Option<Vec<UserEntry>>) -> Result<
    Registry,
    ConfigErrorView,
> {
    match table {
        None => Err(ConfigErrorView::MissingTable { group }),
        Some(entries) => spec_load_users(reg, group, entries@),
    }
}

/// Loads the broadcasters, then the readers.
pub open spec fn spec_from_config(config: AuthConfig) -> Result<Registry, ConfigErrorView> {
    match spec_load_auth(Registry::empty(), Group::Broadcaster, config.broadcaster_auth) {
        Err(e) => Err(e),
        Ok(loaded) => spec_load_auth(loaded, Group::Reader, config.reader_auth),
    }
}

/// What loading the tokens of a user leaves is what it gives where it goes
/// well. Well or not, it leaves the groups as they were and each token of
/// before with the user that it had.
pub proof fn lemma_tokens_loaded(
    reg: Registry,
    group: Group,
    user_id: Seq<char>,
    tokens: Seq<TokenValue>,
)
    ensures
        spec_load_tokens(reg, group, user_id, tokens) matches Ok(loaded) ==> loaded
            == spec_tokens_loaded(reg, user_id, tokens),
        spec_tokens_loaded(reg, user_id, tokens).groups == reg.groups,
        spec_tokens_loaded(reg, user_id, tokens).keeps(reg),
    decreases tokens.len(),
{
    if tokens.len() > 0 {
        if let TokenValue::Token(token) = tokens[0] {
            if !reg.users.contains_key(token@) {
                let next = reg.with_token(token@, user_id);
                lemma_tokens_loaded(next, group, user_id, tokens.drop_first());
                assert(next.keeps(reg));
                lemma_keeps_on(spec_tokens_loaded(reg, user_id, tokens), next, reg);
            }
        }
    }
}

/// A registry that keeps what a second holds keeps what the second keeps
/// of a third.
pub proof fn lemma_keeps_on(after: Registry, mid: Registry, before: Registry)
    requires
        after.keeps(mid),
        mid.keeps(before),
    ensures
        after.keeps(before),
{
    assert forall|token: Seq<char>| #[trigger]
        before.users.contains_key(token) implies after.users.contains_key(token)
        && after.users[token] == before.users[token] by {
        assert(mid.users.contains_key(token));
    }
    assert forall|user_id: Seq<char>| #[trigger]
        before.groups.contains_key(user_id) implies after.groups.contains_key(user_id)
        && after.groups[user_id] == before.groups[user_id] by {
        assert(mid.groups.contains_key(user_id));
    }
}

/// What loading the users of a group leaves is what it gives where it goes
/// well. Well or not, it leaves each user of before under the group that it
/// had, and each token of before with the user that it had.
pub proof fn lemma_users_loaded(reg: Registry, group: Group, entries: Seq<UserEntry>)
    ensures
        spec_load_users(reg, group, entries) matches Ok(loaded) ==> loaded == spec_users_loaded(
            reg,
            group,
            entries,
        ),
        spec_users_loaded(reg, group, entries).keeps(reg),
    decreases entries.len(),
{
    if entries.len() > 0 {
        let entry = entries[0];
        if !reg.groups.contains_key(entry.user_id@) {
            let with_user = reg.with_user(entry.user_id@, group);
            assert(with_user.keeps(reg));
            if let TokensValue::Array(tokens) = entry.tokens {
                lemma_tokens_loaded(with_user, group, entry.user_id@, tokens@);
                let loaded = spec_tokens_loaded(with_user, entry.user_id@, tokens@);
                lemma_keeps_on(loaded, with_user, reg);
                if spec_load_tokens(with_user, group, entry.user_id@, tokens@) is Ok {
                    lemma_users_loaded(loaded, group, entries.drop_first());
                    lemma_keeps_on(spec_users_loaded(reg, group, entries), loaded, reg);
                }
            }
        }
    }
}

/// Loading tokens keeps the groups, and keeps every token with a user that
/// has a group.
pub proof fn lemma_load_tokens_wf(
    reg: Registry,
    group: Group,
    user_id: Seq<char>,
    tokens: Seq<TokenValue>,
)
    requires
        reg.wf(),
        reg.groups.contains_key(user_id),
    ensures
        spec_load_tokens(reg, group, user_id, tokens) matches Ok(loaded) ==> loaded.wf()
            && loaded.groups == reg.groups,
    decreases tokens.len(),
{
    if tokens.len() > 0 {
        if let TokenValue::Token(token) = tokens[0] {
            if !reg.users.contains_key(token@) {
                lemma_load_tokens_wf(
                    reg.with_token(token@, user_id),
                    group,
                    user_id,
                    tokens.drop_first(),
                );
            }
        }
    }
}

/// Loading users keeps every token with a user that has a group.
pub proof fn lemma_load_users_wf(reg: Registry, group: Group, entries: Seq<UserEntry>)
    requires
        reg.wf(),
    ensures
        spec_load_users(reg, group, entries) matches Ok(loaded) ==> loaded.wf(),
    decreases entries.len(),
{
    if entries.len() > 0 {
        let entry = entries[0];
        if !reg.groups.contains_key(entry.user_id@) {
            if let TokensValue::Array(tokens) = entry.tokens {
                let with_user = reg.with_user(entry.user_id@, group);
                lemma_load_tokens_wf(with_user, group, entry.user_id@, tokens@);
                if let Ok(loaded) = spec_load_tokens(with_user, group, entry.user_id@, tokens@) {
                    lemma_load_users_wf(loaded, group, entries.drop_first());
                }
            }
        }
    }
}

/// A registry that a configuration builds is well-formed.
pub proof fn lemma_from_config_wf(config: AuthConfig)
    ensures
        spec_from_config(config) matches Ok(reg) ==> reg.wf(),
{
    if let Some(broadcasters) = config.broadcaster_auth {
        lemma_load_users_wf(Registry::empty(), Group::Broadcaster, broadcasters@);
        if let Ok(loaded) = spec_load_users(Registry::empty(), Group::Broadcaster, broadcasters@) {
            if let Some(readers) = config.reader_auth {
                lemma_load_users_wf(loaded, Group::Reader, readers@);
            }
        }
    }
}

} // verus!
