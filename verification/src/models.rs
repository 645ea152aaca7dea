//! The rows that the catalog keeps and the messages that go in and out,
//! each with the mathematical value (its view) that contracts speak of.
//!
//! Identifiers are the 128-bit numbers that UUIDs pack; instants are
//! microseconds since the Unix epoch.
use vstd::prelude::*;
use crate::seqs::views;

verus! {

/// The view of an optional text.
pub open spec fn opt_text(o: Option<String>) -> Option<Seq<char>> {
    match o {
        Some(s) => Some(s@),
        None => None,
    }
}

/// The views of a sequence of texts.
pub open spec fn texts(v: Seq<String>) -> Seq<Seq<char>> {
    Seq::new(v.len(), |i: int| v[i]@)
}

/// A copy of an optional text.
pub fn copy_opt_text(o: &Option<String>) -> (r: Option<String>)
    ensures
        opt_text(r) == opt_text(*o),
{
    match o {
        Some(s) => Some(s.clone()),
        None => None,
    }
}

/// A copy of a list of texts.
pub fn copy_texts(v: &Vec<String>) -> (r: Vec<String>)
    ensures
        texts(r@) == texts(v@),
{
    let mut out: Vec<String> = Vec::new();
    let mut i: usize = 0;
    while i < v.len()
        invariant
            i <= v.len(),
            out.len() == i,
            forall|j: int| 0 <= j < i ==> out[j]@ == v[j]@,
        decreases v.len() - i,
    {
        out.push(v[i].clone());
        i = i + 1;
    }
    assert(texts(out@) =~= texts(v@));
    out
}

/// A registered user.
#[derive(Debug, Clone, PartialEq, Eq)]
pub struct User {
    pub id: u128,
    pub email: String,
    pub password_digest: String,
    pub created_at: i64,
}

/// What a `User` is in contracts.
pub struct UserView {
    pub id: u128,
    pub email: Seq<char>,
    pub password_digest: Seq<char>,
    pub created_at: i64,
}

impl View for User {
    type V = UserView;

    open spec fn view(&self) -> UserView {
        UserView {
            id: self.id,
            email: self.email@,
            password_digest: self.password_digest@,
            created_at: self.created_at,
        }
    }
}

/// A bearer token. Its `token` text is the whole secret; `user_id` is absent
/// for a token that was seeded rather than minted for a user.
#[derive(Debug, Clone, PartialEq, Eq)]
pub struct ApiToken {
    pub id: u128,
    pub label: String,
    pub token: String,
    pub user_id: Option<u128>,
    pub created_at: i64,
}

/// What a `ApiToken` is in contracts.
pub struct ApiTokenView {
    pub id: u128,
    pub label: Seq<char>,
    pub token: Seq<char>,
    pub user_id: Option<u128>,
    pub created_at: i64,
}

impl View for ApiToken {
    type V = ApiTokenView;

    open spec fn view(&self) -> ApiTokenView {
        ApiTokenView {
            id: self.id,
            label: self.label@,
            token: self.token@,
            user_id: self.user_id,
            created_at: self.created_at,
        }
    }
}

impl ApiToken {
    pub fn copy(&self) -> (r: ApiToken)
        ensures
            r@ == self@,
    {
        ApiToken {
            id: self.id,
            label: self.label.clone(),
            token: self.token.clone(),
            user_id: self.user_id,
            created_at: self.created_at,
        }
    }
}

/// A device code: six digits bound to a token, redeemable once before it
/// expires.
#[derive(Debug, Clone, PartialEq, Eq)]
pub struct DeviceCode {
    pub code: String,
    pub token_id: u128,
    pub expires_at: i64,
    pub consumed: bool,
}

/// What a `DeviceCode` is in contracts.
pub struct DeviceCodeView {
    pub code: Seq<char>,
    pub token_id: u128,
    pub expires_at: i64,
    pub consumed: bool,
}

impl View for DeviceCode {
    type V = DeviceCodeView;

    open spec fn view(&self) -> DeviceCodeView {
        DeviceCodeView {
            code: self.code@,
            token_id: self.token_id,
            expires_at: self.expires_at,
            consumed: self.consumed,
        }
    }
}

/// A command snippet, owned by the token that created it.
#[derive(Debug, Clone, PartialEq, Eq)]
pub struct Command {
    pub id: u128,
    pub title: Option<String>,
    pub text: String,
    pub description: Option<String>,
    pub platform: String,
    pub visibility: String,
    pub favorite: bool,
    pub usage_count: i32,
    pub owner_token: u128,
    pub created_at: i64,
    pub updated_at: i64,
    pub last_used_at: Option<i64>,
}

/// What a `Command` is in contracts.
pub struct CommandView {
    pub id: u128,
    pub title: Option<Seq<char>>,
    pub text: Seq<char>,
    pub description: Option<Seq<char>>,
    pub platform: Seq<char>,
    pub visibility: Seq<char>,
    pub favorite: bool,
    pub usage_count: i32,
    pub owner_token: u128,
    pub created_at: i64,
    pub updated_at: i64,
    pub last_used_at: Option<i64>,
}

impl View for Command {
    type V = CommandView;

    open spec fn view(&self) -> CommandView {
        CommandView {
            id: self.id,
            title: opt_text(self.title),
            text: self.text@,
            description: opt_text(self.description),
            platform: self.platform@,
            visibility: self.visibility@,
            favorite: self.favorite,
            usage_count: self.usage_count,
            owner_token: self.owner_token,
            created_at: self.created_at,
            updated_at: self.updated_at,
            last_used_at: self.last_used_at,
        }
    }
}

impl Command {
    pub fn copy(&self) -> (r: Command)
        ensures
            r@ == self@,
    {
        Command {
            id: self.id,
            title: copy_opt_text(&self.title),
            text: self.text.clone(),
            description: copy_opt_text(&self.description),
            platform: self.platform.clone(),
            visibility: self.visibility.clone(),
            favorite: self.favorite,
            usage_count: self.usage_count,
            owner_token: self.owner_token,
            created_at: self.created_at,
            updated_at: self.updated_at,
            last_used_at: self.last_used_at,
        }
    }
}

/// A tag name in the namespace of one owner token.
#[derive(Debug, Clone, PartialEq, Eq)]
pub struct Tag {
    pub id: u128,
    pub name: String,
    pub owner_token: u128,
}

/// What a `Tag` is in contracts.
pub struct TagView {
    pub id: u128,
    pub name: Seq<char>,
    pub owner_token: u128,
}

impl View for Tag {
    type V = TagView;

    open spec fn view(&self) -> TagView {
        TagView { id: self.id, name: self.name@, owner_token: self.owner_token }
    }
}

/// The association of one tag with one command.
#[derive(Clone, Copy, Debug, PartialEq, Eq, Structural)]
pub struct CommandTag {
    pub command_id: u128,
    pub tag_id: u128,
}

/// A shell command that an owner has run, with how often.
#[derive(Debug, Clone, PartialEq, Eq)]
pub struct LearnedCommand {
    pub id: u128,
    pub content: String,
    pub os: Option<String>,
    pub pwd: Option<String>,
    pub ls_output: Option<String>,
    pub owner_token: u128,
    pub usage_count: i32,
    pub created_at: i64,
    pub last_used_at: Option<i64>,
}

/// What a `LearnedCommand` is in contracts.
pub struct LearnedCommandView {
    pub id: u128,
    pub content: Seq<char>,
    pub os: Option<Seq<char>>,
    pub pwd: Option<Seq<char>>,
    pub ls_output: Option<Seq<char>>,
    pub owner_token: u128,
    pub usage_count: i32,
    pub created_at: i64,
    pub last_used_at: Option<i64>,
}

impl View for LearnedCommand {
    type V = LearnedCommandView;

    open spec fn view(&self) -> LearnedCommandView {
        LearnedCommandView {
            id: self.id,
            content: self.content@,
            os: opt_text(self.os),
            pwd: opt_text(self.pwd),
            ls_output: opt_text(self.ls_output),
            owner_token: self.owner_token,
            usage_count: self.usage_count,
            created_at: self.created_at,
            last_used_at: self.last_used_at,
        }
    }
}

impl LearnedCommand {
    pub fn copy(&self) -> (r: LearnedCommand)
        ensures
            r@ == self@,
    {
        LearnedCommand {
            id: self.id,
            content: self.content.clone(),
            os: copy_opt_text(&self.os),
            pwd: copy_opt_text(&self.pwd),
            ls_output: copy_opt_text(&self.ls_output),
            owner_token: self.owner_token,
            usage_count: self.usage_count,
            created_at: self.created_at,
            last_used_at: self.last_used_at,
        }
    }
}

/// A command as it is handed out: without its owner, with its tag names.
#[derive(Debug, Clone, PartialEq, Eq)]
pub struct CommandWithTags {
    pub id: u128,
    pub title: Option<String>,
    pub text: String,
    pub description: Option<String>,
    pub platform: String,
    pub visibility: String,
    pub favorite: bool,
    pub usage_count: i32,
    pub tags: Vec<String>,
    pub created_at: i64,
    pub last_used_at: Option<i64>,
}

/// What a `CommandWithTags` is in contracts.
pub struct CommandWithTagsView {
    pub id: u128,
    pub title: Option<Seq<char>>,
    pub text: Seq<char>,
    pub description: Option<Seq<char>>,
    pub platform: Seq<char>,
    pub visibility: Seq<char>,
    pub favorite: bool,
    pub usage_count: i32,
    pub tags: Seq<Seq<char>>,
    pub created_at: i64,
    pub last_used_at: Option<i64>,
}

impl View for CommandWithTags {
    type V = CommandWithTagsView;

    open spec fn view(&self) -> CommandWithTagsView {
        CommandWithTagsView {
            id: self.id,
            title: opt_text(self.title),
            text: self.text@,
            description: opt_text(self.description),
            platform: self.platform@,
            visibility: self.visibility@,
            favorite: self.favorite,
            usage_count: self.usage_count,
            tags: texts(self.tags@),
            created_at: self.created_at,
            last_used_at: self.last_used_at,
        }
    }
}

/// One page of a listing, with the size of the whole listing.
#[derive(Debug, Clone, PartialEq, Eq)]
pub struct Page<T> {
    pub items: Vec<T>,
    pub total: i64,
    pub limit: i64,
    pub offset: i64,
}

/// What a `Page` is in contracts.
pub struct PageView<V> {
    pub items: Seq<V>,
    pub total: i64,
    pub limit: i64,
    pub offset: i64,
}

impl<T: View> View for Page<T> {
    type V = PageView<T::V>;

    open spec fn view(&self) -> PageView<T::V> {
        PageView {
            items: views(self.items@),
            total: self.total,
            limit: self.limit,
            offset: self.offset,
        }
    }
}

/// What a caller sends to create a command.
#[derive(Debug, Clone, PartialEq, Eq)]
pub struct CommandPayload {
    pub title: Option<String>,
    pub text: String,
    pub description: Option<String>,
    pub platform: String,
    pub visibility: Option<String>,
    pub favorite: Option<bool>,
    pub tags: Option<Vec<String>>,
}

/// What a `CommandPayload` is in contracts.
pub struct CommandPayloadView {
    pub title: Option<Seq<char>>,
    pub text: Seq<char>,
    pub description: Option<Seq<char>>,
    pub platform: Seq<char>,
    pub visibility: Option<Seq<char>>,
    pub favorite: Option<bool>,
    pub tags: Option<Seq<Seq<char>>>,
}

/// The views of an optional list of texts.
pub open spec fn opt_texts(o: Option<Vec<String>>) -> Option<Seq<Seq<char>>> {
    match o {
        Some(v) => Some(texts(v@)),
        None => None,
    }
}

impl View for CommandPayload {
    type V = CommandPayloadView;

    open spec fn view(&self) -> CommandPayloadView {
        CommandPayloadView {
            title: opt_text(self.title),
            text: self.text@,
            description: opt_text(self.description),
            platform: self.platform@,
            visibility: opt_text(self.visibility),
            favorite: self.favorite,
            tags: opt_texts(self.tags),
        }
    }
}

/// What a caller sends to promote a learned command into the catalog.
#[derive(Debug, Clone, PartialEq, Eq)]
pub struct PromotePayload {
    pub title: Option<String>,
    pub description: Option<String>,
    pub platform: String,
    pub visibility: Option<String>,
    pub tags: Option<Vec<String>>,
}

/// What a `PromotePayload` is in contracts.
pub struct PromotePayloadView {
    pub title: Option<Seq<char>>,
    pub description: Option<Seq<char>>,
    pub platform: Seq<char>,
    pub visibility: Option<Seq<char>>,
    pub tags: Option<Seq<Seq<char>>>,
}

impl View for PromotePayload {
    type V = PromotePayloadView;

    open spec fn view(&self) -> PromotePayloadView {
        PromotePayloadView {
            title: opt_text(self.title),
            description: opt_text(self.description),
            platform: self.platform@,
            visibility: opt_text(self.visibility),
            tags: opt_texts(self.tags),
        }
    }
}

/// What a caller sends to ask for suggestions.
#[derive(Debug, Clone, PartialEq, Eq)]
pub struct SuggestRequest {
    pub query: String,
    pub os: Option<String>,
    pub pwd: Option<String>,
}

/// What a caller sends after it has run a command in a shell.
#[derive(Debug, Clone, PartialEq, Eq)]
pub struct LearnRequest {
    pub executed_command: String,
    pub os: Option<String>,
    pub pwd: Option<String>,
    pub ls_output: Option<String>,
}

/// What a second client sends to redeem a device code.
#[derive(Debug, Clone, PartialEq, Eq)]
pub struct ExchangeTokenRequest {
    pub code: String,
}

/// The secret that a redeemed device code hands out.
#[derive(Debug, Clone, PartialEq, Eq)]
pub struct ExchangeTokenResponse {
    pub token: String,
}

impl View for ExchangeTokenResponse {
    type V = Seq<char>;

    open spec fn view(&self) -> Seq<char> {
        self.token@
    }
}

/// A device code as it is handed to the caller who asked for it.
#[derive(Debug, Clone, PartialEq, Eq)]
pub struct DeviceCodeResponse {
    pub code: String,
    pub expires_at: i64,
}

/// What a `DeviceCodeResponse` is in contracts.
pub struct DeviceCodeResponseView {
    pub code: Seq<char>,
    pub expires_at: i64,
}

impl View for DeviceCodeResponse {
    type V = DeviceCodeResponseView;

    open spec fn view(&self) -> DeviceCodeResponseView {
        DeviceCodeResponseView { code: self.code@, expires_at: self.expires_at }
    }
}

/// What a new user sends to register.
#[derive(Debug, Clone, PartialEq, Eq)]
pub struct RegisterRequest {
    pub email: String,
    pub password: String,
    pub label: Option<String>,
}

/// What a user sends to log in.
#[derive(Debug, Clone, PartialEq, Eq)]
pub struct LoginRequest {
    pub email: String,
    pub password: String,
    pub label: Option<String>,
}

/// The token that a registration or a login hands out.
#[derive(Debug, Clone, PartialEq, Eq)]
pub struct AuthResponse {
    pub token: String,
    pub user_id: u128,
}

/// What a `AuthResponse` is in contracts.
pub struct AuthResponseView {
    pub token: Seq<char>,
    pub user_id: u128,
}

impl View for AuthResponse {
    type V = AuthResponseView;

    open spec fn view(&self) -> AuthResponseView {
        AuthResponseView { token: self.token@, user_id: self.user_id }
    }
}

/// The answer to a liveness probe.
#[derive(Debug, Clone, PartialEq, Eq)]
pub struct HealthResponse {
    pub status: String,
    pub version: String,
}

/// The query of a listing: two optional filters and the window asked for.
#[derive(Debug, Clone, PartialEq, Eq)]
pub struct CommandQuery {
    pub q: Option<String>,
    pub tag: Option<String>,
    pub limit: Option<i64>,
    pub offset: Option<i64>,
}

} // verus!
