//! What giving a name changes, and what it leaves alone.

use vstd::prelude::*;

use crate::combat::event_laws::{on_record, plain_hit, same_fight};
use crate::combat::friendly_fire::{hit_by_own_side_only, own_side};
use crate::combat::identity::entity_of;
use crate::combat::model::{byte_len, StorageState};
use crate::combat::skill::PartyMember;
use crate::combat::target::damage_sum;
use crate::entity::ParsedDamagePacket;
use crate::maps::keys_with_value;
use crate::text::{some_cjk, trimmed};

verus! {

/// Whether `e` held `name` and loses it to `id`.
pub open spec fn loses_name(s: StorageState, id: i32, name: Seq<char>, e: i32) -> bool {
    e != id && s.nicknames.get(e) == Some(name)
}

/// Whether `after` is `s` once `id` has taken on `name`, as far as the names, the sides
/// and the links of `e` go. Only who loses the name is forgotten, with the links to it.
pub open spec fn names_taken(
    s: StorageState,
    after: StorageState,
    id: i32,
    name: Seq<char>,
    e: i32,
) -> bool {
    let stale = loses_name(s, id, name, e);
    let is_player = !s.confirmed_summons.contains(id);
    &&& after.nicknames.get(id) == Some(name)
    &&& stale ==> {
        &&& !after.nicknames.contains_key(e)
        &&& !after.pending_nicknames.contains_key(e)
        &&& !after.authoritative_names.contains(e)
        &&& !after.known_players.contains(e)
    }
    &&& !stale ==> {
        &&& e != id ==> after.nicknames.get(e) == s.nicknames.get(e)
        &&& after.pending_nicknames.get(e) == s.pending_nicknames.get(e)
        &&& after.authoritative_names.contains(e) == s.authoritative_names.contains(e)
        &&& after.known_players.contains(e) <==> s.known_players.contains(e) || (e == id
            && is_player)
    }
    &&& s.summons.contains_key(e) && loses_name(s, id, name, s.summons[e])
        ==> !after.summons.contains_key(e)
    &&& s.summons.contains_key(e) && !loses_name(s, id, name, s.summons[e]) && (e != id
        || !is_player) ==> after.summons.get(e) == s.summons.get(e)
    &&& e == id && is_player ==> !after.summons.contains_key(e)
    &&& after.summons.contains_key(e) ==> after.summons.get(e) == s.summons.get(e)
}

/// Whether `after` is `s` once `id` has taken on `name`, as far as the damage of `actor`
/// against `target` goes: it is gone where the actor lost the name or it turns out to be
/// friendly fire, and as it was otherwise.
pub open spec fn damage_kept(
    s: StorageState,
    after: StorageState,
    id: i32,
    name: Seq<char>,
    target: i32,
    actor: i32,
) -> bool {
    let nobody_new = s.confirmed_summons.contains(id) || s.known_players.contains(id);
    &&& on_record(s, target, actor) && !loses_name(s, id, name, actor) && (nobody_new
        || !after.friendly(actor, target)) ==> on_record(after, target, actor)
        && after.targets[target].actors[actor] == s.targets[target].actors[actor]
    &&& loses_name(s, id, name, actor) ==> !on_record(after, target, actor)
    &&& !nobody_new && after.friendly(actor, target) ==> !on_record(after, target, actor)
    &&& on_record(after, target, actor) ==> on_record(s, target, actor)
    &&& after.targets.contains_key(target) ==> s.targets.contains_key(target) && same_fight(
        s,
        after,
        target,
    ) && after.targets[target].total_damage == damage_sum(after.targets[target].actors)
    &&& nobody_new ==> after.targets.contains_key(target) == s.targets.contains_key(target)
}

/// Whether `after` is `s` once `id` has taken on `name`, in all that has to do with
/// neither names nor sides nor damage. Only the local character's name makes its bearer
/// the local player.
pub open spec fn rest_kept(s: StorageState, after: StorageState, id: i32, name: Seq<char>) -> bool {
    let own = s.local_name is Some && trimmed(s.local_name->0) == trimmed(name);
    &&& own ==> after.local_player_id == Some(id as i64)
    &&& !own ==> after.local_player_id == s.local_player_id
    &&& (StorageState {
        nicknames: s.nicknames,
        pending_nicknames: s.pending_nicknames,
        authoritative_names: s.authoritative_names,
        known_players: s.known_players,
        summons: s.summons,
        targets: s.targets,
        local_player_id: s.local_player_id,
        ..after
    }) == s
}

/// What taking on a name does.
proof fn lemma_name_taken(
    s: StorageState,
    id: i32,
    name: Seq<char>,
    force: bool,
    e: i32,
    target: i32,
    actor: i32,
)
    requires
        s.nicknames.get(id) != Some(name),
        force || !s.prefers_own_name(id, name),
        forall|e: i32| #[trigger]
            s.known_players.contains(e) ==> !s.confirmed_summons.contains(e)
                && !s.summons.contains_key(e),
    ensures
        names_taken(s, s.set_name(id, name, force), id, name, e),
        damage_kept(s, s.set_name(id, name, force), id, name, target, actor),
        rest_kept(s, s.set_name(id, name, force), id, name),
{
    let stale = s.stale_holders(id, name);
    let after = s.set_name(id, name, force);
    assert(stale.contains(e) <==> loses_name(s, id, name, e));
    assert(stale.contains(actor) <==> loses_name(s, id, name, actor));
    assert(!stale.contains(id));
    let forgotten = s.forget(stale);
    let gone = keys_with_value(s.summons, stale);
    if s.summons.contains_key(e) {
        assert(stale.contains(s.summons[e]) <==> loses_name(s, id, name, s.summons[e]));
        assert(gone.contains(e) <==> stale.contains(s.summons[e]));
    }
    assert(forgotten.summons.contains_key(e) <==> s.summons.contains_key(e) && !gone.contains(e));
    if s.targets.contains_key(target) {
        assert(forgotten.targets[target] == s.targets[target].scrub(stale));
    }
    if !s.confirmed_summons.contains(id) && !s.known_players.contains(id) {
        let joined = StorageState {
            nicknames: forgotten.nicknames.insert(id, name),
            summons: forgotten.summons.remove(id).remove(id),
            known_players: forgotten.known_players.insert(id),
            ..forgotten
        };
        assert(forgotten.give_name(id, name) == joined.purge_friendly());
        if forgotten.targets.contains_key(target) {
            let record = forgotten.targets[target];
            let own = own_side(record, target, joined.summons, joined.known_players);
            assert(own.contains(actor) <==> record.actors.contains_key(actor) && joined.friendly(
                actor,
                target,
            ));
            if hit_by_own_side_only(record, target, joined.summons, joined.known_players) {
                assert(record.actors.dom().contains(actor) ==> own.contains(actor));
            }
        }
    }
}

/// A name that the protocol states is taken on with authority. What belongs to others
/// stays: their names, their place among the players, their summons and all damage that
/// is not friendly fire; only the entities that held the name before are forgotten.
pub proof fn law_stated_name_leaves_others_alone(
    s: StorageState,
    id: i32,
    name: Seq<char>,
    e: i32,
    target: i32,
    actor: i32,
)
    requires
        s.wf(),
        s.nicknames.get(id) != Some(name),
    ensures
        ({
            let stated = StorageState { authoritative_names: s.authoritative_names.insert(id), ..s };
            let after = s.state_name(id, name);
            &&& names_taken(stated, after, id, name, e)
            &&& damage_kept(stated, after, id, name, target, actor)
            &&& rest_kept(stated, after, id, name)
        }),
{
    let stated = StorageState { authoritative_names: s.authoritative_names.insert(id), ..s };
    lemma_name_taken(stated, id, name, true, e, target, actor);
}

/// A name that the user set is kept for good and otherwise taken on like one that the
/// protocol states. Names that were set for others stay.
pub proof fn law_users_name_leaves_others_alone(
    s: StorageState,
    id: i32,
    name: Seq<char>,
    e: i32,
    target: i32,
    actor: i32,
)
    requires
        s.wf(),
        s.nicknames.get(id) != Some(name),
    ensures
        ({
            let pinned = StorageState {
                permanent_nicknames: s.permanent_nicknames.insert(id, name),
                authoritative_names: s.authoritative_names.insert(id),
                ..s
            };
            let after = s.pin_name(id, name);
            &&& after.permanent_nicknames.get(id) == Some(name)
            &&& e != id ==> after.permanent_nicknames.get(e) == s.permanent_nicknames.get(e)
            &&& names_taken(pinned, after, id, name, e)
            &&& damage_kept(pinned, after, id, name, target, actor)
            &&& rest_kept(pinned, after, id, name)
        }),
{
    let pinned = StorageState {
        permanent_nicknames: s.permanent_nicknames.insert(id, name),
        authoritative_names: s.authoritative_names.insert(id),
        ..s
    };
    lemma_name_taken(pinned, id, name, true, e, target, actor);
}

/// A name that an entity has already is taken on again without any change but to who
/// the local player is, to whether the name is held with authority, and to what the user
/// has set.
pub proof fn law_known_name_changes_nobody(s: StorageState, id: i32, name: Seq<char>, e: i32)
    requires
        s.nicknames.get(id) == Some(name),
    ensures
        ({
            let own = s.local_name is Some && trimmed(s.local_name->0) == trimmed(name);
            let guessed = s.guess_name(id, name);
            let stated = s.state_name(id, name);
            let pinned = s.pin_name(id, name);
            &&& (StorageState { local_player_id: s.local_player_id, ..guessed }) == s
            &&& stated.authoritative_names.contains(e) <==> s.authoritative_names.contains(e) || e
                == id
            &&& own ==> stated.local_player_id == Some(id as i64)
            &&& !own ==> stated.local_player_id == s.local_player_id && guessed == s
            &&& (StorageState {
                local_player_id: s.local_player_id,
                authoritative_names: s.authoritative_names,
                ..stated
            }) == s
            &&& pinned.permanent_nicknames.get(id) == Some(name)
            &&& e != id ==> pinned.permanent_nicknames.get(e) == s.permanent_nicknames.get(e)
            &&& pinned.authoritative_names == stated.authoritative_names
            &&& pinned.local_player_id == stated.local_player_id
            &&& (StorageState {
                local_player_id: s.local_player_id,
                authoritative_names: s.authoritative_names,
                permanent_nicknames: s.permanent_nicknames,
                ..pinned
            }) == s
        }),
{
}

/// Whether `id` has shown up: by a name, as a player, as a summon, as a target or as
/// somebody's attacker.
pub open spec fn has_shown_up(s: StorageState, id: i32) -> bool {
    ||| s.nicknames.contains_key(id)
    ||| s.known_players.contains(id)
    ||| s.authoritative_names.contains(id)
    ||| s.summons.contains_key(id)
    ||| s.targets.contains_key(id)
    ||| exists|t: i32| on_record(s, t, id)
}

/// Whether a guess of `name` for `id` goes against what is stated: the name is held with
/// authority by somebody else, or the entity holds another one so.
pub open spec fn against_authority(s: StorageState, id: i32, name: Seq<char>) -> bool {
    ||| exists|e: i32| #[trigger]
        loses_name(s, id, name, e) && s.authoritative_names.contains(e)
    ||| s.authoritative_names.contains(id) && s.nicknames.contains_key(id) && s.nicknames[id]
        != name
}

/// Whether `name` is worse than the one `id` has: shorter and in neither Chinese nor
/// Korean script, while the other is in one of those or the new one has five bytes or
/// fewer.
pub open spec fn is_worse_name(s: StorageState, id: i32, name: Seq<char>) -> bool {
    &&& s.nicknames.contains_key(id)
    &&& !some_cjk(name)
    &&& byte_len(name) < byte_len(s.nicknames[id])
    &&& some_cjk(s.nicknames[id]) || byte_len(name) <= 5
}

/// A guessed name is taken on exactly by an entity that has shown up, against no
/// authority, and if it is not worse than the one there is. It leaves others alone like
/// a stated one does; a guess that is not taken on changes nothing.
pub proof fn law_guess_takes_on_the_better_name(
    s: StorageState,
    id: i32,
    name: Seq<char>,
    e: i32,
    target: i32,
    actor: i32,
)
    requires
        s.wf(),
        s.nicknames.get(id) != Some(name),
    ensures
        ({
            let after = s.guess_name(id, name);
            let taken = has_shown_up(s, id) && !against_authority(s, id, name) && !is_worse_name(
                s,
                id,
                name,
            );
            &&& !taken ==> after == s
            &&& taken ==> names_taken(s, after, id, name, e)
            &&& taken ==> damage_kept(s, after, id, name, target, actor)
            &&& taken ==> rest_kept(s, after, id, name)
        }),
{
    assert(s.is_real_entity(id) == has_shown_up(s, id)) by {
        if s.has_record(id) {
            let t = choose|t: i32| #[trigger]
                s.targets.contains_key(t) && s.targets[t].actors.contains_key(id);
            assert(on_record(s, t, id));
        }
        if exists|t: i32| on_record(s, t, id) {
            let t = choose|t: i32| on_record(s, t, id);
            assert(s.targets.contains_key(t));
        }
    }
    if exists|o: i32| #[trigger]
        loses_name(s, id, name, o) && s.authoritative_names.contains(o) {
        let o = choose|o: i32| #[trigger]
            loses_name(s, id, name, o) && s.authoritative_names.contains(o);
        assert(s.nicknames.contains_key(o) && o != id && s.nicknames[o] == name);
    } else {
        assert forall|o: i32| #[trigger]
            s.nicknames.contains_key(o) && o != id && s.nicknames[o]
                == name implies !s.authoritative_names.contains(o) by {
            assert(loses_name(s, id, name, o));
        }
    }
    assert(s.prefers_own_name(id, name) == is_worse_name(s, id, name));
    if !is_worse_name(s, id, name) {
        lemma_name_taken(s, id, name, false, e, target, actor);
    }
}

/// A name that waits is taken on by an entity without one, leaves others alone like a
/// stated one does, and waits no longer. Nothing happens where the entity has a name, or
/// none waits.
pub proof fn law_waiting_name_leaves_others_alone(
    s: StorageState,
    id: i32,
    e: i32,
    target: i32,
    actor: i32,
)
    requires
        s.wf(),
    ensures
        ({
            let after = s.apply_pending(id);
            let name = s.pending_nicknames[id];
            let waits = s.pending_nicknames.contains_key(id) && !s.nicknames.contains_key(id);
            let taken = StorageState { pending_nicknames: s.pending_nicknames.remove(id), ..s };
            &&& !waits ==> after == s
            &&& waits ==> names_taken(taken, after, id, name, e)
            &&& waits ==> damage_kept(taken, after, id, name, target, actor)
            &&& waits ==> rest_kept(taken, after, id, name)
        }),
{
    let taken = StorageState { pending_nicknames: s.pending_nicknames.remove(id), ..s };
    if s.pending_nicknames.contains_key(id) && !s.nicknames.contains_key(id) {
        lemma_name_taken(taken, id, s.pending_nicknames[id], false, e, target, actor);
    }
}

/// A hit by somebody for whom a name waits is recorded like any other, and then the name
/// is taken on.
pub proof fn law_hit_takes_on_the_waiting_name(
    s: StorageState,
    p: ParsedDamagePacket,
    now: i64,
    after: StorageState,
)
    requires
        s.wf(),
        s.damage_recorded(p, now, after),
        s.pending_nicknames.contains_key(p.actor_id),
        !s.nicknames.contains_key(p.actor_id),
        plain_hit(
            StorageState { pending_nicknames: s.pending_nicknames.remove(p.actor_id), ..s },
            p,
        ),
    ensures
        after.nicknames.get(p.actor_id) == Some(s.pending_nicknames[p.actor_id]),
        !after.pending_nicknames.contains_key(p.actor_id),
        exists|hit: StorageState| #[trigger]
            (StorageState {
                pending_nicknames: s.pending_nicknames.remove(p.actor_id),
                ..s
            }).damage_recorded(p, now, hit) && after == (StorageState {
                pending_nicknames: hit.pending_nicknames.insert(
                    p.actor_id,
                    s.pending_nicknames[p.actor_id],
                ),
                ..hit
            }).apply_pending(p.actor_id),
{
    let taken = StorageState { pending_nicknames: s.pending_nicknames.remove(p.actor_id), ..s };
    let hit = taken.enter_fight(p).record_hit(p, now);
    assert(taken.damage_recorded(p, now, hit));
    let waiting = s.enter_fight(p).record_hit(p, now);
    assert(waiting =~= (StorageState {
        pending_nicknames: hit.pending_nicknames.insert(
            p.actor_id,
            s.pending_nicknames[p.actor_id],
        ),
        ..hit
    }));
    assert(hit.pending_nicknames =~= s.pending_nicknames.remove(p.actor_id));
    assert(waiting.pending_nicknames.remove(p.actor_id) =~= hit.pending_nicknames);
}

/// A name is kept waiting for an entity that has none, in place of one that waited
/// before; other names wait on, and nothing else changes.
pub proof fn law_name_is_kept_waiting(s: StorageState, id: i32, name: Seq<char>, e: i32)
    ensures
        ({
            let after = s.await_name(id, name);
            &&& s.nicknames.contains_key(id) ==> after == s
            &&& !s.nicknames.contains_key(id) ==> after.pending_nicknames.get(id) == Some(name)
            &&& e != id ==> after.pending_nicknames.get(e) == s.pending_nicknames.get(e)
            &&& (StorageState { pending_nicknames: s.pending_nicknames, ..after }) == s
        }),
{
}

/// After names have been reset, an entity goes by the name that the user set for it, and
/// by none otherwise; no name waits, none is held with authority, and nothing else has
/// changed.
pub proof fn law_reset_leaves_the_users_names(s: StorageState, e: i32)
    ensures
        ({
            let after = s.reset_names();
            &&& after.nicknames.get(e) == s.permanent_nicknames.get(e)
            &&& !after.pending_nicknames.contains_key(e)
            &&& !after.authoritative_names.contains(e)
            &&& (StorageState {
                nicknames: s.nicknames,
                pending_nicknames: s.pending_nicknames,
                authoritative_names: s.authoritative_names,
                ..after
            }) == s
        }),
{
}

// ----- the local player -----

/// An entity id is its own player id, and any other player id stands for the entity with
/// the same low 32 bits.
pub proof fn law_player_ids_are_entity_ids(id: i32, player_id: i64)
    ensures
        entity_of(id as i64) == id,
        (player_id - entity_of(player_id)) % 0x1_0000_0000 == 0,
{
    assert((id as i64) as i32 == id);
    assert((player_id - (player_id as i32)) % 0x1_0000_0000 == 0) by (bit_vector);
}

/// A name that is given for good is there.
proof fn lemma_pinned(s: StorageState, id: i32, name: Seq<char>)
    ensures
        s.pin_name(id, name).nicknames.get(id) == Some(name),
        s.pin_name(id, name).permanent_nicknames.get(id) == Some(name),
{
    let set = StorageState { permanent_nicknames: s.permanent_nicknames.insert(id, name), ..s };
    crate::combat::laws::law_stated_name_takes_effect(set, id, name);
}

/// The user's name for their character is kept as given. It goes, without blanks around
/// it, to the player that is bound, for good; where it is blank or none is bound,
/// nothing else changes.
pub proof fn law_naming_the_character(s: StorageState, name: Seq<char>, player_id: i64)
    ensures
        ({
            let after = s.character_named(name);
            let kept = StorageState { local_name: Some(name), ..s };
            let id = entity_of(player_id);
            &&& after.local_name == Some(name)
            &&& s.local_player_id is None || trimmed(name).len() == 0 ==> after == kept
            &&& s.local_player_id == Some(player_id) && trimmed(name).len() > 0 ==> after
                == kept.pin_name(id, trimmed(name)) && after.nicknames.get(id) == Some(
                trimmed(name),
            ) && after.permanent_nicknames.get(id) == Some(trimmed(name))
        }),
{
    let kept = StorageState { local_name: Some(name), ..s };
    lemma_pinned(kept, entity_of(player_id), trimmed(name));
}

/// Binding the character to an entity makes it the local player, and gives it the
/// character's name unless that is blank, not known or its own already. An id that is
/// not positive unbinds the character and does nothing else.
pub proof fn law_binding_the_character(s: StorageState, player_id: i64)
    ensures
        ({
            let after = s.actor_bound(player_id);
            let bound = StorageState { local_player_id: Some(player_id), ..s };
            let id = entity_of(player_id);
            let name = trimmed(s.local_name->0);
            let given = s.local_name is Some && name.len() > 0;
            let named = s.nicknames.get(id) == Some(name);
            &&& player_id <= 0 ==> after == (StorageState { local_player_id: None, ..s })
            &&& player_id > 0 && (!given || named) ==> after == bound
            &&& player_id > 0 && given && !named ==> after == bound.pin_name(id, name)
                && after.permanent_nicknames.get(id) == Some(name)
            &&& player_id > 0 && given ==> after.nicknames.get(id) == Some(name)
        }),
{
    let bound = StorageState { local_player_id: Some(player_id), ..s };
    lemma_pinned(bound, entity_of(player_id), trimmed(s.local_name->0));
}

/// Binding the character to an entity under a name makes the entity the local player and
/// gives it that name for good, unless both are so already, in which case nothing
/// changes.
pub proof fn law_binding_under_a_name(s: StorageState, player_id: i64, name: Seq<char>)
    ensures
        ({
            let after = s.nickname_bound(player_id, name);
            let bound = StorageState { local_player_id: Some(player_id), ..s };
            let id = entity_of(player_id);
            let so = s.local_player_id == Some(player_id) && s.nicknames.get(id) == Some(name);
            &&& so ==> after == s
            &&& !so ==> after == bound.pin_name(id, name)
            &&& !so ==> after.permanent_nicknames.get(id) == Some(name)
            &&& after.nicknames.get(id) == Some(name)
            &&& i32::MIN <= player_id <= i32::MAX ==> after.local_player_id == Some(player_id)
        }),
{
    let bound = StorageState { local_player_id: Some(player_id), ..s };
    lemma_pinned(bound, entity_of(player_id), name);
    if i32::MIN <= player_id <= i32::MAX {
        law_player_ids_are_entity_ids(player_id as i32, player_id);
        assert(entity_of(player_id) as i64 == player_id);
    }
}

// ----- the party roster -----

/// A roster that is taken holds every member it names as last named. The others that
/// were in it stay if it is a partial one, and go if it is complete. An empty one says
/// nothing, and nothing but the roster ever changes.
pub proof fn law_roster_is_taken(
    s: StorageState,
    entries: Seq<(String, PartyMember)>,
    complete: bool,
    i: int,
    other: Seq<char>,
)
    requires
        0 <= i < entries.len(),
        forall|j: int| i < j < entries.len() ==> (#[trigger] entries[j]).0@ != entries[i].0@,
        forall|j: int| 0 <= j < entries.len() ==> (#[trigger] entries[j]).0@ != other,
    ensures
        ({
            let after = s.roster_taken(entries, complete);
            &&& after.party.get(entries[i].0@) == Some(entries[i].1)
            &&& complete ==> !after.party.contains_key(other)
            &&& !complete ==> after.party.get(other) == s.party.get(other)
            &&& s.roster_taken(Seq::empty(), complete) == s
            &&& (StorageState { party: s.party, ..after }) == s
        }),
{
    let start = if complete {
        Map::<Seq<char>, PartyMember>::empty()
    } else {
        s.party
    };
    assert forall|j: int| i < j implies !#[trigger] crate::combat::roster::named_at(
        entries,
        entries[i].0@,
        j,
    ) by {}
    assert(crate::combat::roster::named_at(entries, entries[i].0@, i));
    crate::combat::laws::law_roster_update(start, entries, entries[i].0@);
    crate::combat::laws::law_roster_update(start, entries, other);
    assert(forall|j: int| !crate::combat::roster::named_at(entries, other, j));
}

} // verus!
