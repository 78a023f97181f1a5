//! The configuration of the tokens, what makes it valid, and how it is
//! refused.

use crate::auth::Group;
use crate::error::{HandlerError, HandlerErrorKind};
use vstd::prelude::*;
use vstd::string::*;

verus! {

/// One element of a user's token list: a token, or a value that is no string.
#[derive(Debug)]
pub enum TokenValue {
    Token(String),
    Other,
}

/// What the configuration holds for a user: a list, or a value that is none.
#[derive(Debug)]
pub enum TokensValue {
    Array(Vec<TokenValue>),
    Other,
}

/// One user of a group with the value configured for it.
#[derive(Debug)]
pub struct UserEntry {
    pub user_id: String,
    pub tokens: TokensValue,
}

/// The two tables of the configuration, in the order in which their entries
/// are loaded. A table that the configuration lacks is `None`.
#[derive(Debug)]
pub struct AuthConfig {
    pub broadcaster_auth: Option<Vec<UserEntry>>,
    pub reader_auth: Option<Vec<UserEntry>>,
}

impl AuthConfig {
    /// The table of a group.
    pub open spec fn table(self, group: Group) -> Option<Vec<UserEntry>> {
        match group {
            Group::Broadcaster => self.broadcaster_auth,
            Group::Reader => self.reader_auth,
        }
    }
}

/// The token at place `j` of a list; no characters where the element is no
/// token.
pub open spec fn token_at(tokens: Seq<TokenValue>, j: int) -> Seq<char> {
    match tokens[j] {
        TokenValue::Token(token) => token@,
        TokenValue::Other => Seq::empty(),
    }
}

/// Every element of the list is a token, and no token stands in it twice.
pub open spec fn tokens_valid(tokens: Seq<TokenValue>) -> bool {
    &&& forall|j: int| 0 <= j < tokens.len() ==> #[trigger] tokens[j] is Token
    &&& forall|j1: int, j2: int|
        0 <= j1 < j2 < tokens.len() ==> #[trigger] token_at(tokens, j1) != #[trigger] token_at(
            tokens,
            j2,
        )
}

/// The list that is configured for a user; empty where the value is no list.
pub open spec fn entry_tokens(entry: UserEntry) -> Seq<TokenValue> {
    match entry.tokens {
        TokensValue::Array(tokens) => tokens@,
        TokensValue::Other => Seq::empty(),
    }
}

/// Whether `j` is a place in the list of the entry at place `k`.
pub open spec fn is_token_place(entries: Seq<UserEntry>, k: int, j: int) -> bool {
    0 <= k < entries.len() && 0 <= j < entry_tokens(entries[k]).len()
}

/// The token at place `j` of the entry at place `k`.
pub open spec fn token_of(entries: Seq<UserEntry>, k: int, j: int) -> Seq<char> {
    token_at(entry_tokens(entries[k]), j)
}

/// What makes a sequence of entries loadable: every value is a list of
/// tokens, no user id stands in it twice, and no token stands in it twice,
/// be it for one user or for two.
pub open spec fn entries_valid(entries: Seq<UserEntry>) -> bool {
    &&& forall|k: int| 0 <= k < entries.len() ==> (#[trigger] entries[k]).tokens is Array
    &&& forall|k: int, j: int| #[trigger]
        is_token_place(entries, k, j) ==> entry_tokens(entries[k])[j] is Token
    &&& forall|k1: int, k2: int|
        0 <= k1 < k2 < entries.len() ==> (#[trigger] entries[k1]).user_id@ != (
        #[trigger] entries[k2]).user_id@
    &&& forall|k1: int, j1: int, k2: int, j2: int|
        #[trigger] is_token_place(entries, k1, j1) && #[trigger] is_token_place(entries, k2, j2)
            && (k1 != k2 || j1 != j2) ==> token_of(entries, k1, j1) != token_of(entries, k2, j2)
}

impl AuthConfig {
    /// The entries of both tables in the order in which they are loaded:
    /// the broadcasters, then the readers. A missing table has none.
    pub open spec fn entries(self) -> Seq<UserEntry> {
        self.group_entries(Group::Broadcaster) + self.group_entries(Group::Reader)
    }

    /// The entries of the table of a group.
    pub open spec fn group_entries(self, group: Group) -> Seq<UserEntry> {
        match self.table(group) {
            Some(entries) => entries@,
            None => Seq::empty(),
        }
    }

    /// The group of the entry at place `k` of [`Self::entries`].
    pub open spec fn group_at(self, k: int) -> Group {
        if k < self.group_entries(Group::Broadcaster).len() {
            Group::Broadcaster
        } else {
            Group::Reader
        }
    }

    /// A configuration is valid where it has both tables, each value in them
    /// is a list of tokens, each user id stands in it once, under one group,
    /// and each token stands in it once.
    pub open spec fn valid(self) -> bool {
        &&& self.broadcaster_auth is Some
        &&& self.reader_auth is Some
        &&& entries_valid(self.entries())
    }
}

/// Why a configuration was refused.
#[derive(Debug)]
pub enum ConfigError {
    /// The group's table is missing.
    MissingTable { group: Group },
    /// `user_id`, listed under `group`, is already a user of `dupe`.
    DuplicateUser { group: Group, user_id: String, dupe: Group },
    /// The value of `user_id` is no list.
    InvalidTokenArray { group: Group, user_id: String },
    /// An element of the list of `user_id` is no string.
    InvalidToken { group: Group, user_id: String },
    /// `token`, listed for `user_id`, already belongs to `owner`.
    DuplicateToken { group: Group, user_id: String, owner: String, token: String },
}

/// A [`ConfigError`] with its strings as sequences of characters.
pub enum ConfigErrorView {
    MissingTable { group: Group },
    DuplicateUser { group: Group, user_id: Seq<char>, dupe: Group },
    InvalidTokenArray { group: Group, user_id: Seq<char> },
    InvalidToken { group: Group, user_id: Seq<char> },
    DuplicateToken { group: Group, user_id: Seq<char>, owner: Seq<char>, token: Seq<char> },
}

impl View for ConfigError {
    type V = ConfigErrorView;

    open spec fn view(&self) -> ConfigErrorView {
        match self {
            ConfigError::MissingTable { group } => ConfigErrorView::MissingTable { group: *group },
            ConfigError::DuplicateUser { group, user_id, dupe } => ConfigErrorView::DuplicateUser {
                group: *group,
                user_id: user_id@,
                dupe: *dupe,
            },
            ConfigError::InvalidTokenArray { group, user_id } => {
                ConfigErrorView::InvalidTokenArray { group: *group, user_id: user_id@ }
            },
            ConfigError::InvalidToken { group, user_id } => ConfigErrorView::InvalidToken {
                group: *group,
                user_id: user_id@,
            },
            ConfigError::DuplicateToken { group, user_id, owner, token } => {
                ConfigErrorView::DuplicateToken {
                    group: *group,
                    user_id: user_id@,
                    owner: owner@,
                    token: token@,
                }
            },
        }
    }
}

/// A string as `{:?}` writes it: between double quotes, with the
/// characters escaped that need it.
pub uninterp spec fn debug_quoted(text: Seq<char>) -> Seq<char>;

/// Formats `text` as `<str as std::fmt::Debug>::fmt` writes it, which is
/// what `{:?}` stands for in `format!`. The result is a function of the
/// characters of `text`, named [`debug_quoted`]; nothing else is claimed of
/// it.
#[verifier::external_body]
fn debug_quote(text: &str) -> (quoted: String)
    ensures
        quoted@ == debug_quoted(text@),
{
    format!("{:?}", text)
}

impl Group {
    pub open spec fn spec_missing_message(self) -> Seq<char> {
        match self {
            Group::Broadcaster => "Invalid or undefined ROCKET_BROADCASTER_AUTH"@,
            Group::Reader => "Invalid or undefined ROCKET_READER_AUTH"@,
        }
    }
}

impl ConfigErrorView {
    /// What the error says: the table at fault, the user at fault, and what
    /// it collides with.
    pub open spec fn message(self) -> Seq<char> {
        match self {
            ConfigErrorView::MissingTable { group } => group.spec_missing_message(),
            ConfigErrorView::DuplicateUser { group, user_id, dupe } => "Invalid "@
                + group.spec_config_name() + " user: "@ + debug_quoted(user_id)
                + " dupe user in: "@ + dupe.spec_config_name(),
            ConfigErrorView::InvalidTokenArray { group, user_id } => "Invalid "@
                + group.spec_config_name() + " token array for: "@ + debug_quoted(user_id),
            ConfigErrorView::InvalidToken { group, user_id } => "Invalid "@
                + group.spec_config_name() + " token for: "@ + debug_quoted(user_id),
            ConfigErrorView::DuplicateToken { group, user_id, owner, token } => "Invalid "@
                + group.spec_config_name() + " token for: "@ + debug_quoted(user_id)
                + " dupe in: "@ + debug_quoted(owner) + " ("@ + debug_quoted(token) + ")"@,
        }
    }
}

impl ConfigError {
    /// What the error says.
    pub fn message(&self) -> (msg: String)
        ensures
            msg@ == self@.message(),
    {
        match self {
            ConfigError::MissingTable { group } => match group {
                Group::Broadcaster => String::from_str(
                    "Invalid or undefined ROCKET_BROADCASTER_AUTH",
                ),
                Group::Reader => String::from_str("Invalid or undefined ROCKET_READER_AUTH"),
            },
            ConfigError::DuplicateUser { group, user_id, dupe } => {
                let mut msg = String::from_str("Invalid ");
                msg.append(group.config_name());
                msg.append(" user: ");
                msg.append(debug_quote(user_id.as_str()).as_str());
                msg.append(" dupe user in: ");
                msg.append(dupe.config_name());
                msg
            },
            ConfigError::InvalidTokenArray { group, user_id } => {
                let mut msg = String::from_str("Invalid ");
                msg.append(group.config_name());
                msg.append(" token array for: ");
                msg.append(debug_quote(user_id.as_str()).as_str());
                msg
            },
            ConfigError::InvalidToken { group, user_id } => {
                let mut msg = String::from_str("Invalid ");
                msg.append(group.config_name());
                msg.append(" token for: ");
                msg.append(debug_quote(user_id.as_str()).as_str());
                msg
            },
            ConfigError::DuplicateToken { group, user_id, owner, token } => {
                let mut msg = String::from_str("Invalid ");
                msg.append(group.config_name());
                msg.append(" token for: ");
                msg.append(debug_quote(user_id.as_str()).as_str());
                msg.append(" dupe in: ");
                msg.append(debug_quote(owner.as_str()).as_str());
                msg.append(" (");
                msg.append(debug_quote(token.as_str()).as_str());
                msg.append(")");
                msg
            },
        }
    }

    /// The error as the service reports it: an internal error with the
    /// message of this one.
    pub fn into_handler_error(self) -> (err: HandlerError)
        ensures
            err.kind() matches HandlerErrorKind::InternalError(msg) && msg@ == self@.message(),
    {
        HandlerError::internal(self.message())
    }
}

} // verus!
