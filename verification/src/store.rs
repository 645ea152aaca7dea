//! The tables of the catalog, held in memory.
//!
//! A `Store` keeps the uniqueness constraints of `State::wf` as a type
//! invariant: every statement that adds or changes a row checks them first,
//! so no caller can hold a store that breaks them.
use vstd::prelude::*;
use crate::errors::{stored, DbError, DbErrorView};
use crate::models::{
    ApiToken, Command, CommandTag, DeviceCode, LearnedCommand, Tag, TagView, User,
};
use crate::seqs::{
    clash, first_index, keep, lemma_distinct_push, lemma_distinct_remove, lemma_distinct_update,
    lemma_first_index, lemma_first_index_is, lemma_keep_distinct, lemma_keep_sources,
    lemma_keep_step, opt_view, views,
};
use crate::state::{
    code_is, command_has_id, command_owned, learned_has_id, learned_is, learned_owned,
    link_outside, same_code, same_command, same_learned, same_link, same_tag, same_token,
    same_user, tag_has_id, tag_named, token_has_id, token_has_value, user_has_email, State,
};

verus! {

/// The seven tables as vectors of rows.
struct Tables {
    users: Vec<User>,
    tokens: Vec<ApiToken>,
    device_codes: Vec<DeviceCode>,
    commands: Vec<Command>,
    tags: Vec<Tag>,
    command_tags: Vec<CommandTag>,
    learned: Vec<LearnedCommand>,
}

impl View for Tables {
    type V = State;

    closed spec fn view(&self) -> State {
        State {
            users: views(self.users@),
            tokens: views(self.tokens@),
            device_codes: views(self.device_codes@),
            commands: views(self.commands@),
            tags: views(self.tags@),
            command_tags: self.command_tags@,
            learned: views(self.learned@),
        }
    }
}

impl Tables {
    fn empty() -> (t: Tables)
        ensures
            t@ == State::empty(),
    {
        let t = Tables {
            users: Vec::new(),
            tokens: Vec::new(),
            device_codes: Vec::new(),
            commands: Vec::new(),
            tags: Vec::new(),
            command_tags: Vec::new(),
            learned: Vec::new(),
        };
        assert(t@.users =~= State::empty().users);
        assert(t@.tokens =~= State::empty().tokens);
        assert(t@.device_codes =~= State::empty().device_codes);
        assert(t@.commands =~= State::empty().commands);
        assert(t@.tags =~= State::empty().tags);
        assert(t@.learned =~= State::empty().learned);
        t
    }
}

/// The seven tables, executable. The view of a store is the `State` that
/// it holds.
pub struct Store {
    tables: Tables,
}

impl View for Store {
    type V = State;

    closed spec fn view(&self) -> State {
        self.tables@
    }
}

impl Store {
    #[verifier::type_invariant]
    spec fn inv(self) -> bool {
        self@.wf()
    }

    /// A store with no rows.
    pub fn new() -> (s: Store)
        ensures
            s@ == State::empty(),
    {
        Store { tables: Tables::empty() }
    }

    /// The uniqueness constraints hold of every store.
    pub fn constraints(&self)
        ensures
            self@.wf(),
    {
        proof {
            use_type_invariant(self);
        }
    }

    pub fn users(&self) -> (rows: &Vec<User>)
        ensures
            views(rows@) == self@.users,
    {
        &self.tables.users
    }

    pub fn tokens(&self) -> (rows: &Vec<ApiToken>)
        ensures
            views(rows@) == self@.tokens,
    {
        &self.tables.tokens
    }

    pub fn device_codes(&self) -> (rows: &Vec<DeviceCode>)
        ensures
            views(rows@) == self@.device_codes,
    {
        &self.tables.device_codes
    }

    pub fn commands(&self) -> (rows: &Vec<Command>)
        ensures
            views(rows@) == self@.commands,
    {
        &self.tables.commands
    }

    pub fn tags(&self) -> (rows: &Vec<Tag>)
        ensures
            views(rows@) == self@.tags,
    {
        &self.tables.tags
    }

    pub fn command_tags(&self) -> (rows: &Vec<CommandTag>)
        ensures
            rows@ == self@.command_tags,
    {
        &self.tables.command_tags
    }

    pub fn learned(&self) -> (rows: &Vec<LearnedCommand>)
        ensures
            views(rows@) == self@.learned,
    {
        &self.tables.learned
    }

    /// The token whose secret is `value`.
    pub fn find_token_by_value(&self, value: &str) -> (r: Option<ApiToken>)
        ensures
            opt_view(r) == self@.token_by_value(value@),
    {
        let wanted = value.to_owned();
        let rows = &self.tables.tokens;
        let mut i: usize = 0;
        while i < rows.len()
            invariant
                i <= rows.len(),
                wanted@ == value@,
                views(rows@) == self@.tokens,
                forall|j: int| 0 <= j < i ==> !token_has_value(value@)(#[trigger] self@.tokens[j]),
            decreases rows.len() - i,
        {
            if rows[i].token == wanted {
                proof {
                    lemma_first_index_is(self@.tokens, token_has_value(value@), i as int);
                }
                return Some(rows[i].copy());
            }
            i = i + 1;
        }
        proof {
            lemma_first_index_is(self@.tokens, token_has_value(value@), i as int);
        }
        None
    }

    /// The token with this id.
    pub fn find_token_by_id(&self, id: u128) -> (r: Option<ApiToken>)
        ensures
            opt_view(r) == self@.token_by_id(id),
    {
        let rows = &self.tables.tokens;
        let mut i: usize = 0;
        while i < rows.len()
            invariant
                i <= rows.len(),
                views(rows@) == self@.tokens,
                forall|j: int| 0 <= j < i ==> !token_has_id(id)(#[trigger] self@.tokens[j]),
            decreases rows.len() - i,
        {
            if rows[i].id == id {
                proof {
                    lemma_first_index_is(self@.tokens, token_has_id(id), i as int);
                }
                return Some(rows[i].copy());
            }
            i = i + 1;
        }
        proof {
            lemma_first_index_is(self@.tokens, token_has_id(id), i as int);
        }
        None
    }

    /// Whether a token would repeat the id or the secret of a token that is
    /// there.
    pub fn token_clash(&self, token: &ApiToken) -> (r: bool)
        ensures
            r == self@.token_clash(token@),
    {
        let rows = &self.tables.tokens;
        let mut i: usize = 0;
        while i < rows.len()
            invariant
                i <= rows.len(),
                views(rows@) == self@.tokens,
                forall|j: int| 0 <= j < i ==> !same_token()(#[trigger] self@.tokens[j], token@),
            decreases rows.len() - i,
        {
            if rows[i].id == token.id || rows[i].token == token.token {
                assert(same_token()(self@.tokens[i as int], token@));
                return true;
            }
            i = i + 1;
        }
        false
    }

    /// Adds a token, unless it repeats the id or the secret of another.
    pub fn insert_token(&mut self, token: ApiToken) -> (r: Result<(), DbError>)
        ensures
            final(self)@.wf(),
            old(self)@.token_clash(token@) ==> r == Err::<(), DbError>(DbError::UniqueViolation)
                && final(self)@ == old(self)@,
            !old(self)@.token_clash(token@) ==> r is Ok && final(self)@ == old(self)@.add_token(
                token@,
            ),
    {
        proof {
            use_type_invariant(&*self);
        }
        if self.token_clash(&token) {
            return Err(DbError::UniqueViolation);
        }
        let ghost before = self@;
        let mut t = Tables::empty();
        std::mem::swap(&mut t, &mut self.tables);
        t.tokens.push(token);
        proof {
            assert(t@.tokens =~= before.tokens.push(token@));
            lemma_distinct_push(before.tokens, same_token(), token@);
        }
        self.tables = t;
        Ok(())
    }

    /// The user with this email.
    pub fn find_user_by_email(&self, email: &str) -> (r: Option<User>)
        ensures
            opt_view(r) == self@.user_by_email(email@),
    {
        let wanted = email.to_owned();
        let rows = &self.tables.users;
        let mut i: usize = 0;
        while i < rows.len()
            invariant
                i <= rows.len(),
                wanted@ == email@,
                views(rows@) == self@.users,
                forall|j: int| 0 <= j < i ==> !user_has_email(email@)(#[trigger] self@.users[j]),
            decreases rows.len() - i,
        {
            if rows[i].email == wanted {
                proof {
                    lemma_first_index_is(self@.users, user_has_email(email@), i as int);
                }
                let found = User {
                    id: rows[i].id,
                    email: rows[i].email.clone(),
                    password_digest: rows[i].password_digest.clone(),
                    created_at: rows[i].created_at,
                };
                return Some(found);
            }
            i = i + 1;
        }
        proof {
            lemma_first_index_is(self@.users, user_has_email(email@), i as int);
        }
        None
    }

    /// Whether a user would repeat the id or the email of a user that is
    /// there.
    pub fn user_clash(&self, user: &User) -> (r: bool)
        ensures
            r == self@.user_clash(user@),
    {
        let rows = &self.tables.users;
        let mut i: usize = 0;
        while i < rows.len()
            invariant
                i <= rows.len(),
                views(rows@) == self@.users,
                forall|j: int| 0 <= j < i ==> !same_user()(#[trigger] self@.users[j], user@),
            decreases rows.len() - i,
        {
            if rows[i].id == user.id || rows[i].email == user.email {
                assert(same_user()(self@.users[i as int], user@));
                return true;
            }
            i = i + 1;
        }
        false
    }

    /// Adds a user, unless it repeats the id or the email of another.
    pub fn insert_user(&mut self, user: User) -> (r: Result<(), DbError>)
        ensures
            final(self)@.wf(),
            old(self)@.user_clash(user@) ==> r == Err::<(), DbError>(DbError::UniqueViolation)
                && final(self)@ == old(self)@,
            !old(self)@.user_clash(user@) ==> r is Ok && final(self)@ == old(self)@.add_user(
                user@,
            ),
    {
        proof {
            use_type_invariant(&*self);
        }
        if self.user_clash(&user) {
            return Err(DbError::UniqueViolation);
        }
        let ghost before = self@;
        let mut t = Tables::empty();
        std::mem::swap(&mut t, &mut self.tables);
        t.users.push(user);
        proof {
            assert(t@.users =~= before.users.push(user@));
            lemma_distinct_push(before.users, same_user(), user@);
        }
        self.tables = t;
        Ok(())
    }

    /// Adds a user together with a token: both rows, or neither where one
    /// of them repeats what its table keeps unique.
    pub fn insert_account(&mut self, user: User, token: ApiToken) -> (r: Result<(), DbError>)
        ensures
            final(self)@.wf(),
            old(self)@.user_clash(user@) || old(self)@.token_clash(token@) ==> r == Err::<
                (),
                DbError,
            >(DbError::UniqueViolation) && final(self)@ == old(self)@,
            !old(self)@.user_clash(user@) && !old(self)@.token_clash(token@) ==> r is Ok
                && final(self)@ == old(self)@.add_user(user@).add_token(token@),
    {
        proof {
            use_type_invariant(&*self);
        }
        if self.user_clash(&user) || self.token_clash(&token) {
            return Err(DbError::UniqueViolation);
        }
        let ghost before = self@;
        let mut t = Tables::empty();
        std::mem::swap(&mut t, &mut self.tables);
        t.users.push(user);
        t.tokens.push(token);
        proof {
            assert(t@.users =~= before.users.push(user@));
            assert(t@.tokens =~= before.tokens.push(token@));
            lemma_distinct_push(before.users, same_user(), user@);
            lemma_distinct_push(before.tokens, same_token(), token@);
        }
        self.tables = t;
        Ok(())
    }

    /// The device code of these digits.
    pub fn find_device_code(&self, code: &str) -> (r: Option<DeviceCode>)
        ensures
            opt_view(r) == self@.device_code(code@),
    {
        let wanted = code.to_owned();
        let rows = &self.tables.device_codes;
        let mut i: usize = 0;
        while i < rows.len()
            invariant
                i <= rows.len(),
                wanted@ == code@,
                views(rows@) == self@.device_codes,
                forall|j: int| 0 <= j < i ==> !code_is(code@)(#[trigger] self@.device_codes[j]),
            decreases rows.len() - i,
        {
            if rows[i].code == wanted {
                proof {
                    lemma_first_index_is(self@.device_codes, code_is(code@), i as int);
                }
                let found = DeviceCode {
                    code: rows[i].code.clone(),
                    token_id: rows[i].token_id,
                    expires_at: rows[i].expires_at,
                    consumed: rows[i].consumed,
                };
                return Some(found);
            }
            i = i + 1;
        }
        proof {
            lemma_first_index_is(self@.device_codes, code_is(code@), i as int);
        }
        None
    }

    /// Adds a device code, unless its digits are those of another.
    pub fn insert_device_code(&mut self, code: DeviceCode) -> (r: Result<(), DbError>)
        ensures
            final(self)@.wf(),
            old(self)@.code_clash(code@) ==> r == Err::<(), DbError>(DbError::UniqueViolation)
                && final(self)@ == old(self)@,
            !old(self)@.code_clash(code@) ==> r is Ok
                && final(self)@ == old(self)@.add_device_code(code@),
    {
        proof {
            use_type_invariant(&*self);
        }
        let found = self.find_device_code(code.code.as_str());
        proof {
            lemma_first_index(self@.device_codes, code_is(code.code@));
        }
        if found.is_some() {
            let ghost k = first_index(self@.device_codes, code_is(code.code@));
            assert(same_code()(self@.device_codes[k], code@));
            return Err(DbError::UniqueViolation);
        }
        let ghost before = self@;
        assert(!before.code_clash(code@)) by {
            if before.code_clash(code@) {
                let k = choose|k: int|
                    0 <= k < before.device_codes.len() && same_code()(
                        #[trigger] before.device_codes[k],
                        code@,
                    );
                assert(code_is(code.code@)(before.device_codes[k]));
            }
        }
        let mut t = Tables::empty();
        std::mem::swap(&mut t, &mut self.tables);
        t.device_codes.push(code);
        proof {
            assert(t@.device_codes =~= before.device_codes.push(code@));
            lemma_distinct_push(before.device_codes, same_code(), code@);
        }
        self.tables = t;
        Ok(())
    }

    /// Marks the device code of these digits as consumed.
    pub fn consume_device_code(&mut self, code: &str)
        ensures
            final(self)@.wf(),
            final(self)@ == old(self)@.consume(code@),
    {
        proof {
            use_type_invariant(&*self);
        }
        let ghost before = self@;
        let wanted = code.to_owned();
        let mut t = Tables::empty();
        std::mem::swap(&mut t, &mut self.tables);
        let mut i: usize = 0;
        while i < t.device_codes.len() && !(t.device_codes[i].code == wanted)
            invariant
                i <= t.device_codes.len(),
                wanted@ == code@,
                t@ == before,
                forall|j: int| 0 <= j < i ==> !code_is(code@)(#[trigger] before.device_codes[j]),
            decreases t.device_codes.len() - i,
        {
            i = i + 1;
        }
        proof {
            lemma_first_index_is(before.device_codes, code_is(code@), i as int);
        }
        if i < t.device_codes.len() {
            let row = DeviceCode {
                code: t.device_codes[i].code.clone(),
                token_id: t.device_codes[i].token_id,
                expires_at: t.device_codes[i].expires_at,
                consumed: true,
            };
            let ghost marked = row@;
            t.device_codes.set(i, row);
            proof {
                assert(t@.device_codes =~= before.device_codes.update(i as int, marked));
                assert forall|j: int|
                    0 <= j < before.device_codes.len() && j != i implies !same_code()(
                    #[trigger] before.device_codes[j],
                    marked,
                ) && !same_code()(marked, before.device_codes[j]) by {
                    if j < i {
                        assert(!same_code()(before.device_codes[j], before.device_codes[i as int]));
                    } else {
                        assert(!same_code()(before.device_codes[i as int], before.device_codes[j]));
                    }
                }
                lemma_distinct_update(before.device_codes, same_code(), i as int, marked);
            }
        }
        self.tables = t;
    }

    /// Whether a command would repeat the id of a command that is there.
    pub fn command_clash(&self, command: &Command) -> (r: bool)
        ensures
            r == self@.command_clash(command@),
    {
        let rows = &self.tables.commands;
        let mut i: usize = 0;
        while i < rows.len()
            invariant
                i <= rows.len(),
                views(rows@) == self@.commands,
                forall|j: int| 0 <= j < i ==> !same_command()(#[trigger] self@.commands[j], command@),
            decreases rows.len() - i,
        {
            if rows[i].id == command.id {
                assert(same_command()(self@.commands[i as int], command@));
                return true;
            }
            i = i + 1;
        }
        false
    }

    /// Adds a command, unless it repeats the id of another.
    pub fn insert_command(&mut self, command: Command) -> (r: Result<(), DbError>)
        ensures
            final(self)@.wf(),
            old(self)@.command_clash(command@) ==> r == Err::<(), DbError>(
                DbError::UniqueViolation,
            ) && final(self)@ == old(self)@,
            !old(self)@.command_clash(command@) ==> r is Ok
                && final(self)@ == old(self)@.add_command(command@),
    {
        proof {
            use_type_invariant(&*self);
        }
        if self.command_clash(&command) {
            return Err(DbError::UniqueViolation);
        }
        let ghost before = self@;
        let mut t = Tables::empty();
        std::mem::swap(&mut t, &mut self.tables);
        t.commands.push(command);
        proof {
            assert(t@.commands =~= before.commands.push(command@));
            lemma_distinct_push(before.commands, same_command(), command@);
            assert forall|j: int| 0 <= j < t@.command_tags.len() implies t@.has_command(
                (#[trigger] t@.command_tags[j]).command_id,
            ) by {
                let id = t@.command_tags[j].command_id;
                assert(before.has_command(before.command_tags[j].command_id));
                let k = choose|k: int|
                    0 <= k < before.commands.len() && command_has_id(id)(
                        #[trigger] before.commands[k],
                    );
                assert(t@.commands[k] == before.commands[k]);
            }
        }
        self.tables = t;
        Ok(())
    }

    /// Removes the command of this id where this owner owns it, together
    /// with its associations, and says how many commands went.
    pub fn delete_command(&mut self, id: u128, owner: u128) -> (rows: u64)
        ensures
            final(self)@.wf(),
            final(self)@ == old(self)@.remove_command(id, owner),
            rows == if old(self)@.owned_command(id, owner) is Some { 1u64 } else { 0u64 },
    {
        proof {
            use_type_invariant(&*self);
        }
        let ghost before = self@;
        let mut t = Tables::empty();
        std::mem::swap(&mut t, &mut self.tables);
        let mut i: usize = 0;
        while i < t.commands.len() && !(t.commands[i].id == id && t.commands[i].owner_token
            == owner)
            invariant
                i <= t.commands.len(),
                t@ == before,
                forall|j: int| 0 <= j < i ==> !command_owned(id, owner)(#[trigger] before.commands[j]),
            decreases t.commands.len() - i,
        {
            i = i + 1;
        }
        proof {
            lemma_first_index_is(before.commands, command_owned(id, owner), i as int);
        }
        if i >= t.commands.len() {
            self.tables = t;
            return 0;
        }
        let _gone = t.commands.remove(i);
        let mut kept: Vec<CommandTag> = Vec::new();
        let mut j: usize = 0;
        while j < t.command_tags.len()
            invariant
                j <= t.command_tags.len(),
                t.command_tags@ == before.command_tags,
                kept@ == keep(before.command_tags.take(j as int), link_outside(id)),
            decreases t.command_tags.len() - j,
        {
            proof {
                lemma_keep_step(before.command_tags, link_outside(id), j as int);
            }
            if t.command_tags[j].command_id != id {
                kept.push(t.command_tags[j]);
            }
            j = j + 1;
        }
        proof {
            if before.command_tags.len() > 0 {
                lemma_keep_step(before.command_tags, link_outside(id), 0);
            }
            assert(before.command_tags.take(before.command_tags.len() as int)
                =~= before.command_tags);
        }
        t.command_tags = kept;
        proof {
            assert(t@.commands =~= before.commands.remove(i as int));
            lemma_distinct_remove(before.commands, same_command(), i as int);
            lemma_keep_distinct(before.command_tags, same_link(), link_outside(id));
            let from = lemma_keep_sources(before.command_tags, link_outside(id));
            assert forall|j: int| 0 <= j < t@.command_tags.len() implies t@.has_command(
                (#[trigger] t@.command_tags[j]).command_id,
            ) by {
                let l = before.command_tags[from[j]];
                assert(t@.command_tags[j] == l);
                assert(before.has_command(l.command_id));
                let k = choose|k: int|
                    0 <= k < before.commands.len() && command_has_id(l.command_id)(
                        #[trigger] before.commands[k],
                    );
                assert(k != i);
                if k < i {
                    assert(t@.commands[k] == before.commands[k]);
                } else {
                    assert(t@.commands[k - 1] == before.commands[k]);
                }
            }
        }
        self.tables = t;
        1
    }

    /// The tag with this id.
    pub fn find_tag_by_id(&self, id: u128) -> (r: Option<Tag>)
        ensures
            opt_view(r) == self@.tag_by_id(id),
    {
        let rows = &self.tables.tags;
        let mut i: usize = 0;
        while i < rows.len() && rows[i].id != id
            invariant
                i <= rows.len(),
                views(rows@) == self@.tags,
                forall|j: int| 0 <= j < i ==> !tag_has_id(id)(#[trigger] self@.tags[j]),
            decreases rows.len() - i,
        {
            i = i + 1;
        }
        proof {
            lemma_first_index_is(self@.tags, tag_has_id(id), i as int);
        }
        if i < rows.len() {
            Some(
                Tag { id: rows[i].id, name: rows[i].name.clone(), owner_token: rows[i].owner_token },
            )
        } else {
            None
        }
    }

    /// Finds the tag of this owner and name, or adds it under the id
    /// `fresh`; the id of the tag comes back.
    pub fn upsert_tag(&mut self, owner: u128, name: &str, fresh: u128) -> (r: Result<u128, DbError>)
        ensures
            final(self)@.wf(),
            final(self)@ == old(self)@.upsert_tag(owner, name@, fresh).0,
            match r {
                Ok(id) => old(self)@.upsert_tag(owner, name@, fresh).1 == Ok::<u128, DbErrorView>(
                    id,
                ),
                Err(e) => old(self)@.upsert_tag(owner, name@, fresh).1 == Err::<
                    u128,
                    DbErrorView,
                >(e@),
            },
    {
        proof {
            use_type_invariant(&*self);
        }
        let ghost before = self@;
        let wanted = name.to_owned();
        let mut t = Tables::empty();
        std::mem::swap(&mut t, &mut self.tables);
        let mut i: usize = 0;
        while i < t.tags.len() && !(t.tags[i].owner_token == owner && t.tags[i].name == wanted)
            invariant
                i <= t.tags.len(),
                wanted@ == name@,
                t@ == before,
                forall|j: int| 0 <= j < i ==> !tag_named(owner, name@)(#[trigger] before.tags[j]),
            decreases t.tags.len() - i,
        {
            i = i + 1;
        }
        proof {
            lemma_first_index_is(before.tags, tag_named(owner, name@), i as int);
        }
        if i < t.tags.len() {
            let id = t.tags[i].id;
            self.tables = t;
            return Ok(id);
        }
        let mut k: usize = 0;
        while k < t.tags.len() && t.tags[k].id != fresh
            invariant
                k <= t.tags.len(),
                t@ == before,
                forall|j: int| 0 <= j < k ==> !tag_has_id(fresh)(#[trigger] before.tags[j]),
            decreases t.tags.len() - k,
        {
            k = k + 1;
        }
        proof {
            lemma_first_index_is(before.tags, tag_has_id(fresh), k as int);
        }
        if k < t.tags.len() {
            self.tables = t;
            return Err(DbError::UniqueViolation);
        }
        let tag = Tag { id: fresh, name: wanted, owner_token: owner };
        let ghost added = tag@;
        t.tags.push(tag);
        proof {
            assert(added == TagView { id: fresh, name: name@, owner_token: owner });
            assert(t@.tags =~= before.tags.push(added));
            assert(!clash(before.tags, same_tag(), added)) by {
                if clash(before.tags, same_tag(), added) {
                    let j = choose|j: int|
                        0 <= j < before.tags.len() && same_tag()(#[trigger] before.tags[j], added);
                    assert(!tag_named(owner, name@)(before.tags[j]));
                    assert(!tag_has_id(fresh)(before.tags[j]));
                }
            }
            lemma_distinct_push(before.tags, same_tag(), added);
        }
        self.tables = t;
        Ok(fresh)
    }

    /// Whether a command has this id.
    pub fn has_command(&self, id: u128) -> (r: bool)
        ensures
            r == self@.has_command(id),
    {
        let rows = &self.tables.commands;
        let mut i: usize = 0;
        while i < rows.len()
            invariant
                i <= rows.len(),
                views(rows@) == self@.commands,
                forall|j: int| 0 <= j < i ==> !command_has_id(id)(#[trigger] self@.commands[j]),
            decreases rows.len() - i,
        {
            if rows[i].id == id {
                assert(command_has_id(id)(self@.commands[i as int]));
                return true;
            }
            i = i + 1;
        }
        false
    }

    /// Associates a tag with a command, unless the two are associated;
    /// refused where the command is not there.
    pub fn link_tag(&mut self, command_id: u128, tag_id: u128) -> (r: Result<(), DbError>)
        ensures
            final(self)@.wf(),
            final(self)@ == old(self)@.link(CommandTag { command_id, tag_id }).0,
            stored(r) == old(self)@.link(CommandTag { command_id, tag_id }).1,
    {
        proof {
            use_type_invariant(&*self);
        }
        if !self.has_command(command_id) {
            return Err(DbError::ForeignKeyViolation);
        }
        let ghost before = self@;
        let link = CommandTag { command_id, tag_id };
        let mut t = Tables::empty();
        std::mem::swap(&mut t, &mut self.tables);
        let mut i: usize = 0;
        while i < t.command_tags.len() && !(t.command_tags[i].command_id == command_id
            && t.command_tags[i].tag_id == tag_id)
            invariant
                i <= t.command_tags.len(),
                t@ == before,
                link == (CommandTag { command_id, tag_id }),
                forall|j: int| 0 <= j < i ==> !same_link()(#[trigger] before.command_tags[j], link),
            decreases t.command_tags.len() - i,
        {
            i = i + 1;
        }
        if i < t.command_tags.len() {
            assert(same_link()(before.command_tags[i as int], link));
            self.tables = t;
            return Ok(());
        }
        t.command_tags.push(link);
        proof {
            assert(t@.command_tags =~= before.command_tags.push(link));
            lemma_distinct_push(before.command_tags, same_link(), link);
            assert forall|j: int| 0 <= j < t@.command_tags.len() implies t@.has_command(
                (#[trigger] t@.command_tags[j]).command_id,
            ) by {
                if j < before.command_tags.len() {
                    assert(t@.command_tags[j] == before.command_tags[j]);
                }
            }
        }
        self.tables = t;
        Ok(())
    }

    /// The learned command of this owner with this content.
    pub fn find_learned(&self, owner: u128, content: &str) -> (r: Option<LearnedCommand>)
        ensures
            opt_view(r) == self@.learned_by_content(owner, content@),
    {
        let wanted = content.to_owned();
        let rows = &self.tables.learned;
        let mut i: usize = 0;
        while i < rows.len() && !(rows[i].owner_token == owner && rows[i].content == wanted)
            invariant
                i <= rows.len(),
                wanted@ == content@,
                views(rows@) == self@.learned,
                forall|j: int|
                    0 <= j < i ==> !learned_is(owner, content@)(#[trigger] self@.learned[j]),
            decreases rows.len() - i,
        {
            i = i + 1;
        }
        proof {
            lemma_first_index_is(self@.learned, learned_is(owner, content@), i as int);
        }
        if i < rows.len() {
            Some(rows[i].copy())
        } else {
            None
        }
    }

    /// The learned command of this id, where this owner owns it.
    pub fn find_owned_learned(&self, id: u128, owner: u128) -> (r: Option<LearnedCommand>)
        ensures
            opt_view(r) == self@.owned_learned(id, owner),
    {
        let rows = &self.tables.learned;
        let mut i: usize = 0;
        while i < rows.len() && !(rows[i].id == id && rows[i].owner_token == owner)
            invariant
                i <= rows.len(),
                views(rows@) == self@.learned,
                forall|j: int| 0 <= j < i ==> !learned_owned(id, owner)(#[trigger] self@.learned[j]),
            decreases rows.len() - i,
        {
            i = i + 1;
        }
        proof {
            lemma_first_index_is(self@.learned, learned_owned(id, owner), i as int);
        }
        if i < rows.len() {
            Some(rows[i].copy())
        } else {
            None
        }
    }

    /// Whether a learned command would repeat the id, or the owner and
    /// content, of one that is there.
    pub fn learned_clash(&self, row: &LearnedCommand) -> (r: bool)
        ensures
            r == self@.learned_clash(row@),
    {
        let rows = &self.tables.learned;
        let mut i: usize = 0;
        while i < rows.len()
            invariant
                i <= rows.len(),
                views(rows@) == self@.learned,
                forall|j: int| 0 <= j < i ==> !same_learned()(#[trigger] self@.learned[j], row@),
            decreases rows.len() - i,
        {
            if rows[i].id == row.id || (rows[i].owner_token == row.owner_token && rows[i].content
                == row.content) {
                assert(same_learned()(self@.learned[i as int], row@));
                return true;
            }
            i = i + 1;
        }
        false
    }

    /// Adds a learned command, unless it repeats the id, or the owner and
    /// content, of another.
    pub fn insert_learned(&mut self, row: LearnedCommand) -> (r: Result<(), DbError>)
        ensures
            final(self)@.wf(),
            old(self)@.learned_clash(row@) ==> r == Err::<(), DbError>(DbError::UniqueViolation)
                && final(self)@ == old(self)@,
            !old(self)@.learned_clash(row@) ==> r is Ok && final(self)@ == old(self)@.add_learned(
                row@,
            ),
    {
        proof {
            use_type_invariant(&*self);
        }
        if self.learned_clash(&row) {
            return Err(DbError::UniqueViolation);
        }
        let ghost before = self@;
        let mut t = Tables::empty();
        std::mem::swap(&mut t, &mut self.tables);
        t.learned.push(row);
        proof {
            assert(t@.learned =~= before.learned.push(row@));
            lemma_distinct_push(before.learned, same_learned(), row@);
        }
        self.tables = t;
        Ok(())
    }

    /// Sets the usage count of the learned command of this id.
    pub fn set_usage(&mut self, id: u128, usage: i32)
        ensures
            final(self)@.wf(),
            final(self)@ == old(self)@.set_usage(id, usage),
    {
        proof {
            use_type_invariant(&*self);
        }
        let ghost before = self@;
        let mut t = Tables::empty();
        std::mem::swap(&mut t, &mut self.tables);
        let mut i: usize = 0;
        while i < t.learned.len() && t.learned[i].id != id
            invariant
                i <= t.learned.len(),
                t@ == before,
                forall|j: int| 0 <= j < i ==> !learned_has_id(id)(#[trigger] before.learned[j]),
            decreases t.learned.len() - i,
        {
            i = i + 1;
        }
        proof {
            lemma_first_index_is(before.learned, learned_has_id(id), i as int);
        }
        if i < t.learned.len() {
            let mut row = t.learned[i].copy();
            row.usage_count = usage;
            let ghost changed = row@;
            t.learned.set(i, row);
            proof {
                assert(t@.learned =~= before.learned.update(i as int, changed));
                assert forall|j: int|
                    0 <= j < before.learned.len() && j != i implies !same_learned()(
                    #[trigger] before.learned[j],
                    changed,
                ) && !same_learned()(changed, before.learned[j]) by {
                    if j < i {
                        assert(!same_learned()(before.learned[j], before.learned[i as int]));
                    } else {
                        assert(!same_learned()(before.learned[i as int], before.learned[j]));
                    }
                }
                lemma_distinct_update(before.learned, same_learned(), i as int, changed);
            }
        }
        self.tables = t;
    }
}

} // verus!
