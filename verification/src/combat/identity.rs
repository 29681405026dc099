//! What the user says about who they are.

use vstd::prelude::*;

use crate::combat::data_storage::DataStorage;
use crate::combat::model::StorageState;
use crate::text::{same_text, trimmed};

verus! {

/// The entity that a player id stands for: its low 32 bits.
pub open spec fn entity_of(player_id: i64) -> i32 {
    player_id as i32
}

impl StorageState {
    /// The user named their character. A player that is already bound takes the
    /// name at once, unless it is blank.
    pub open spec fn character_named(self, name: Seq<char>) -> StorageState {
        let s = StorageState { local_name: Some(name), ..self };
        if trimmed(name).len() > 0 && self.local_player_id is Some {
            s.pin_name(entity_of(self.local_player_id->0), trimmed(name))
        } else {
            s
        }
    }

    /// The user bound their character to an entity. An id that is not positive
    /// unbinds it. The character's name, unless blank, goes to the entity if that
    /// does not go by it yet.
    pub open spec fn actor_bound(self, actor_id: i64) -> StorageState {
        if actor_id <= 0 {
            StorageState { local_player_id: None, ..self }
        } else {
            let s = StorageState { local_player_id: Some(actor_id), ..self };
            if self.local_name is Some && trimmed(self.local_name->0).len() > 0
                && self.nicknames.get(entity_of(actor_id)) != Some(trimmed(self.local_name->0)) {
                s.pin_name(entity_of(actor_id), trimmed(self.local_name->0))
            } else {
                s
            }
        }
    }

    /// The user bound their character to an entity and named it. Nothing happens
    /// if both are so already.
    pub open spec fn nickname_bound(self, actor_id: i64, name: Seq<char>) -> StorageState {
        if self.local_player_id == Some(actor_id) && self.nicknames.get(entity_of(actor_id))
            == Some(name) {
            self
        } else {
            StorageState { local_player_id: Some(actor_id), ..self }.pin_name(
                entity_of(actor_id),
                name,
            )
        }
    }
}

/// The entity that a player id stands for.
fn entity_id(player_id: i64) -> (id: i32)
    ensures
        id == entity_of(player_id),
{
    #[verifier::truncate]
    (player_id as i32)
}

impl DataStorage {
    /// Whether `id` goes by `name`.
    fn goes_by(&self, id: i32, name: &str) -> (so: bool)
        ensures
            so == (self@.nicknames.get(id) == Some(name@)),
    {
        match self.get_nickname(id) {
            Some(held) => same_text(held.as_str(), name),
            None => false,
        }
    }

    /// The user names their character.
    pub fn set_character_name(&mut self, name: String)
        requires
            old(self).wf(),
        ensures
            final(self).wf(),
            final(self)@ == old(self)@.character_named(name@),
    {
        let own: String = name.as_str().trim().to_owned();
        self.set_local_character_name(Some(name));
        if !own.as_str().is_empty() {
            if let Some(id) = self.local_player_id() {
                self.set_permanent_nickname(entity_id(id), own.as_str());
            }
        }
    }

    /// The user binds their character to an entity, or unbinds it with an id that
    /// is not positive. The name is applied again even where the binding was
    /// there before, because it may have been set after it.
    pub fn bind_local_actor_id(&mut self, actor_id: i64)
        requires
            old(self).wf(),
        ensures
            final(self).wf(),
            final(self)@ == old(self)@.actor_bound(actor_id),
    {
        if actor_id <= 0 {
            self.set_local_player_id(None);
            return;
        }
        self.set_local_player_id(Some(actor_id));
        let id: i32 = entity_id(actor_id);
        if let Some(name) = self.local_character_name() {
            let own: &str = name.as_str().trim();
            if !own.is_empty() && !self.goes_by(id, own) {
                self.set_permanent_nickname(id, own);
            }
        }
    }

    /// The user binds their character to an entity and names it. A name that is
    /// there already gives way, however it came about.
    pub fn bind_local_nickname(&mut self, actor_id: i64, nickname: String)
        requires
            old(self).wf(),
        ensures
            final(self).wf(),
            final(self)@ == old(self)@.nickname_bound(actor_id, nickname@),
    {
        let id: i32 = entity_id(actor_id);
        let bound: bool = match self.local_player_id() {
            Some(current) => current == actor_id,
            None => false,
        };
        if bound && self.goes_by(id, nickname.as_str()) {
            return;
        }
        self.set_local_player_id(Some(actor_id));
        self.set_permanent_nickname(id, nickname.as_str());
    }
}

} // verus!
