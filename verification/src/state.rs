//! The mathematical model of the catalog's tables and of the statements
//! that read and change them.
//!
//! A table is the sequence of its rows in the order of insertion. A lookup
//! finds the first row that matches; an insert fails where the new row would
//! repeat what the table keeps unique. An association of a tag with a
//! command lives and dies with the command.
use vstd::prelude::*;
use crate::errors::DbErrorView;
use crate::models::{
    ApiTokenView, CommandTag, CommandView, DeviceCodeView, LearnedCommandView, TagView, UserView,
};
use crate::seqs::{any, clash, distinct, first_index, first_match, keep};

verus! {

/// Two users collide where they share an id or an email.
pub open spec fn same_user() -> spec_fn(UserView, UserView) -> bool {
    |a: UserView, b: UserView| a.id == b.id || a.email == b.email
}

/// Two tokens collide where they share an id or a secret.
pub open spec fn same_token() -> spec_fn(ApiTokenView, ApiTokenView) -> bool {
    |a: ApiTokenView, b: ApiTokenView| a.id == b.id || a.token == b.token
}

/// Two device codes collide where they share their digits.
pub open spec fn same_code() -> spec_fn(DeviceCodeView, DeviceCodeView) -> bool {
    |a: DeviceCodeView, b: DeviceCodeView| a.code == b.code
}

/// Two commands collide where they share an id.
pub open spec fn same_command() -> spec_fn(CommandView, CommandView) -> bool {
    |a: CommandView, b: CommandView| a.id == b.id
}

/// Two tags collide where they share an id, or an owner and a name.
pub open spec fn same_tag() -> spec_fn(TagView, TagView) -> bool {
    |a: TagView, b: TagView| a.id == b.id || (a.owner_token == b.owner_token && a.name == b.name)
}

/// Two associations collide where they join the same command and tag.
pub open spec fn same_link() -> spec_fn(CommandTag, CommandTag) -> bool {
    |a: CommandTag, b: CommandTag| a.command_id == b.command_id && a.tag_id == b.tag_id
}

/// Two learned commands collide where they share an id, or an owner and a
/// content.
pub open spec fn same_learned() -> spec_fn(LearnedCommandView, LearnedCommandView) -> bool {
    |a: LearnedCommandView, b: LearnedCommandView|
        a.id == b.id || (a.owner_token == b.owner_token && a.content == b.content)
}

pub open spec fn token_has_value(value: Seq<char>) -> spec_fn(ApiTokenView) -> bool {
    |t: ApiTokenView| t.token == value
}

pub open spec fn token_has_id(id: u128) -> spec_fn(ApiTokenView) -> bool {
    |t: ApiTokenView| t.id == id
}

pub open spec fn user_has_email(email: Seq<char>) -> spec_fn(UserView) -> bool {
    |u: UserView| u.email == email
}

pub open spec fn code_is(code: Seq<char>) -> spec_fn(DeviceCodeView) -> bool {
    |d: DeviceCodeView| d.code == code
}

pub open spec fn command_has_id(id: u128) -> spec_fn(CommandView) -> bool {
    |c: CommandView| c.id == id
}

pub open spec fn command_owned(id: u128, owner: u128) -> spec_fn(CommandView) -> bool {
    |c: CommandView| c.id == id && c.owner_token == owner
}

pub open spec fn tag_named(owner: u128, name: Seq<char>) -> spec_fn(TagView) -> bool {
    |t: TagView| t.owner_token == owner && t.name == name
}

pub open spec fn tag_has_id(id: u128) -> spec_fn(TagView) -> bool {
    |t: TagView| t.id == id
}

pub open spec fn link_of(command_id: u128) -> spec_fn(CommandTag) -> bool {
    |l: CommandTag| l.command_id == command_id
}

pub open spec fn link_outside(command_id: u128) -> spec_fn(CommandTag) -> bool {
    |l: CommandTag| l.command_id != command_id
}

pub open spec fn learned_is(owner: u128, content: Seq<char>) -> spec_fn(LearnedCommandView) -> bool {
    |l: LearnedCommandView| l.owner_token == owner && l.content == content
}

pub open spec fn learned_owned(id: u128, owner: u128) -> spec_fn(LearnedCommandView) -> bool {
    |l: LearnedCommandView| l.id == id && l.owner_token == owner
}

pub open spec fn learned_has_id(id: u128) -> spec_fn(LearnedCommandView) -> bool {
    |l: LearnedCommandView| l.id == id
}

/// The seven tables.
pub struct State {
    pub users: Seq<UserView>,
    pub tokens: Seq<ApiTokenView>,
    pub device_codes: Seq<DeviceCodeView>,
    pub commands: Seq<CommandView>,
    pub tags: Seq<TagView>,
    pub command_tags: Seq<CommandTag>,
    pub learned: Seq<LearnedCommandView>,
}

impl State {
    pub open spec fn empty() -> State {
        State {
            users: Seq::empty(),
            tokens: Seq::empty(),
            device_codes: Seq::empty(),
            commands: Seq::empty(),
            tags: Seq::empty(),
            command_tags: Seq::empty(),
            learned: Seq::empty(),
        }
    }

    /// Whether a command has this id.
    pub open spec fn has_command(self, id: u128) -> bool {
        any(self.commands, command_has_id(id))
    }

    /// Every association belongs to a command that is there.
    pub open spec fn anchored(self) -> bool {
        forall|i: int|
            0 <= i < self.command_tags.len() ==> self.has_command(
                (#[trigger] self.command_tags[i]).command_id,
            )
    }

    /// The constraints of the seven tables: what each keeps unique, and
    /// that no association is without its command.
    pub open spec fn wf(self) -> bool {
        &&& distinct(self.users, same_user())
        &&& distinct(self.tokens, same_token())
        &&& distinct(self.device_codes, same_code())
        &&& distinct(self.commands, same_command())
        &&& distinct(self.tags, same_tag())
        &&& distinct(self.command_tags, same_link())
        &&& distinct(self.learned, same_learned())
        &&& self.anchored()
    }

    pub open spec fn token_by_value(self, value: Seq<char>) -> Option<ApiTokenView> {
        first_match(self.tokens, token_has_value(value))
    }

    pub open spec fn token_by_id(self, id: u128) -> Option<ApiTokenView> {
        first_match(self.tokens, token_has_id(id))
    }

    pub open spec fn token_clash(self, t: ApiTokenView) -> bool {
        clash(self.tokens, same_token(), t)
    }

    pub open spec fn add_token(self, t: ApiTokenView) -> State {
        State { tokens: self.tokens.push(t), ..self }
    }

    pub open spec fn user_by_email(self, email: Seq<char>) -> Option<UserView> {
        first_match(self.users, user_has_email(email))
    }

    pub open spec fn user_clash(self, u: UserView) -> bool {
        clash(self.users, same_user(), u)
    }

    pub open spec fn add_user(self, u: UserView) -> State {
        State { users: self.users.push(u), ..self }
    }

    pub open spec fn device_code(self, code: Seq<char>) -> Option<DeviceCodeView> {
        first_match(self.device_codes, code_is(code))
    }

    pub open spec fn code_clash(self, d: DeviceCodeView) -> bool {
        clash(self.device_codes, same_code(), d)
    }

    pub open spec fn add_device_code(self, d: DeviceCodeView) -> State {
        State { device_codes: self.device_codes.push(d), ..self }
    }

    /// The store with the device code of these digits marked as consumed.
    pub open spec fn consume(self, code: Seq<char>) -> State {
        let i = first_index(self.device_codes, code_is(code));
        if i < self.device_codes.len() {
            State {
                device_codes: self.device_codes.update(
                    i,
                    DeviceCodeView { consumed: true, ..self.device_codes[i] },
                ),
                ..self
            }
        } else {
            self
        }
    }

    pub open spec fn command_clash(self, c: CommandView) -> bool {
        clash(self.commands, same_command(), c)
    }

    pub open spec fn add_command(self, c: CommandView) -> State {
        State { commands: self.commands.push(c), ..self }
    }

    /// The command with this id, where this owner owns it.
    pub open spec fn owned_command(self, id: u128, owner: u128) -> Option<CommandView> {
        first_match(self.commands, command_owned(id, owner))
    }

    /// The store without the command of this id and owner, and without the
    /// associations of that command. Unchanged where there is no such command.
    pub open spec fn remove_command(self, id: u128, owner: u128) -> State {
        let i = first_index(self.commands, command_owned(id, owner));
        if i < self.commands.len() {
            State {
                commands: self.commands.remove(i),
                command_tags: keep(self.command_tags, link_outside(id)),
                ..self
            }
        } else {
            self
        }
    }

    pub open spec fn tag_by_name(self, owner: u128, name: Seq<char>) -> Option<TagView> {
        first_match(self.tags, tag_named(owner, name))
    }

    pub open spec fn tag_by_id(self, id: u128) -> Option<TagView> {
        first_match(self.tags, tag_has_id(id))
    }

    pub open spec fn tag_clash(self, t: TagView) -> bool {
        clash(self.tags, same_tag(), t)
    }

    pub open spec fn add_tag(self, t: TagView) -> State {
        State { tags: self.tags.push(t), ..self }
    }

    /// Finds the tag of this owner and name, or adds it under the id `fresh`.
    /// The id of the tag comes back; a new tag whose id is taken is refused.
    pub open spec fn upsert_tag(self, owner: u128, name: Seq<char>, fresh: u128) -> (
        State,
        Result<u128, DbErrorView>,
    ) {
        match self.tag_by_name(owner, name) {
            Some(t) => (self, Ok(t.id)),
            None => if self.tag_by_id(fresh) is Some {
                (self, Err(DbErrorView::UniqueViolation))
            } else {
                (self.add_tag(TagView { id: fresh, name: name, owner_token: owner }), Ok(fresh))
            },
        }
    }

    pub open spec fn linked(self, l: CommandTag) -> bool {
        clash(self.command_tags, same_link(), l)
    }

    /// Associating a tag with a command: refused where the command is not
    /// there, and nothing new where the two are associated already.
    pub open spec fn link(self, l: CommandTag) -> (State, Result<(), DbErrorView>) {
        if !self.has_command(l.command_id) {
            (self, Err(DbErrorView::ForeignKeyViolation))
        } else if self.linked(l) {
            (self, Ok(()))
        } else {
            (State { command_tags: self.command_tags.push(l), ..self }, Ok(()))
        }
    }

    pub open spec fn learned_by_content(self, owner: u128, content: Seq<char>) -> Option<
        LearnedCommandView,
    > {
        first_match(self.learned, learned_is(owner, content))
    }

    pub open spec fn owned_learned(self, id: u128, owner: u128) -> Option<LearnedCommandView> {
        first_match(self.learned, learned_owned(id, owner))
    }

    pub open spec fn learned_clash(self, l: LearnedCommandView) -> bool {
        clash(self.learned, same_learned(), l)
    }

    pub open spec fn add_learned(self, l: LearnedCommandView) -> State {
        State { learned: self.learned.push(l), ..self }
    }

    /// The store with the usage count of the learned command of this id set.
    pub open spec fn set_usage(self, id: u128, usage: i32) -> State {
        let i = first_index(self.learned, learned_has_id(id));
        if i < self.learned.len() {
            State {
                learned: self.learned.update(
                    i,
                    LearnedCommandView { usage_count: usage, ..self.learned[i] },
                ),
                ..self
            }
        } else {
            self
        }
    }
}

} // verus!
