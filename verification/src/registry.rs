//! The session registry: an in-memory store mapping opaque session
//! identifiers to independent game states, with operations to create a
//! session, read its state, and apply an action to it atomically.

use crate::game::{fresh_state, transition, GameAction, GameState, StateModel};
use crate::game::{apply_action, apply_action_with_roll, new_game};
use vstd::prelude::*;

verus! {

/// The registry's one error: an unknown session identifier.
#[derive(Debug, Clone, Copy, PartialEq, Eq, Structural)]
pub enum RegistryError {
    NotFound,
}

/// In-memory store of sessions, keyed by `game_id`. Each stored key is
/// unique, names its state's own `game_id`, and maps to a well-formed
/// state; the abstract value is a map from identifier to state model.
pub struct Registry {
    games: Vec<(String, GameState)>,
}

spec fn entries_map(s: Seq<(String, GameState)>) -> Map<Seq<char>, StateModel>
    decreases s.len(),
{
    if s.len() == 0 {
        Map::empty()
    } else {
        entries_map(s.drop_last()).insert(s.last().0@, s.last().1@)
    }
}

spec fn keys_distinct(s: Seq<(String, GameState)>) -> bool {
    forall|i: int, j: int| 0 <= i < j < s.len() ==> s[i].0@ != s[j].0@
}

proof fn lemma_entries_map_domain(s: Seq<(String, GameState)>, k: Seq<char>)
    ensures
        entries_map(s).contains_key(k) <==> exists|i: int| 0 <= i < s.len() && s[i].0@ == k,
    decreases s.len(),
{
    if s.len() == 0 {
    } else {
        let sub = s.drop_last();
        lemma_entries_map_domain(sub, k);
        if s.last().0@ == k {
            assert(s[s.len() - 1].0@ == k);
        } else if entries_map(sub).contains_key(k) {
            let i = choose|i: int| 0 <= i < sub.len() && sub[i].0@ == k;
            assert(s[i].0@ == k);
        } else if exists|i: int| 0 <= i < s.len() && s[i].0@ == k {
            let i = choose|i: int| 0 <= i < s.len() && s[i].0@ == k;
            assert(i < s.len() - 1 ==> sub[i].0@ == k);
        }
    }
}

proof fn lemma_entries_map_value(s: Seq<(String, GameState)>, k: Seq<char>, i: int)
    requires
        keys_distinct(s),
        0 <= i < s.len(),
        s[i].0@ == k,
    ensures
        entries_map(s).contains_key(k),
        entries_map(s)[k] == s[i].1@,
    decreases s.len(),
{
    if i == s.len() - 1 {
    } else {
        let sub = s.drop_last();
        lemma_entries_map_value(sub, k, i);
        assert(s.last().0@ != k);
    }
}

proof fn lemma_entries_map_push(s: Seq<(String, GameState)>, p: (String, GameState))
    ensures
        entries_map(s.push(p)) == entries_map(s).insert(p.0@, p.1@),
{
    assert(s.push(p).drop_last() =~~= s);
    assert(s.push(p).last() == p);
}

proof fn lemma_entries_map_update(s: Seq<(String, GameState)>, i: int, p: (String, GameState))
    requires
        keys_distinct(s),
        0 <= i < s.len(),
        s[i].0@ == p.0@,
    ensures
        entries_map(s.update(i, p)) == entries_map(s).insert(p.0@, p.1@),
    decreases s.len(),
{
    let su = s.update(i, p);
    if i == s.len() - 1 {
        assert(su.drop_last() =~~= s.drop_last());
        assert(su.last() == p);
        lemma_entries_map_value(s, p.0@, i);
        assert(entries_map(s.drop_last()).insert(s.last().0@, s.last().1@).insert(p.0@, p.1@)
            =~= entries_map(s.drop_last()).insert(p.0@, p.1@));
    } else {
        let sub = s.drop_last();
        assert(keys_distinct(sub)) by {
            assert(forall|a: int, b: int|
                0 <= a < b < sub.len() ==> sub[a].0@ == s[a].0@ && sub[b].0@ == s[b].0@);
        }
        assert(su.drop_last() =~~= sub.update(i, p));
        assert(su.last() == s.last());
        lemma_entries_map_update(sub, i, p);
        assert(s.last().0@ != p.0@) by {
            assert(s[i].0@ != s[s.len() - 1].0@);
        }
        assert(entries_map(sub).insert(p.0@, p.1@).insert(s.last().0@, s.last().1@)
            =~= entries_map(sub).insert(s.last().0@, s.last().1@).insert(p.0@, p.1@));
    }
}

impl View for Registry {
    type V = Map<Seq<char>, StateModel>;

    closed spec fn view(&self) -> Map<Seq<char>, StateModel> {
        entries_map(self.games@)
    }
}

impl Registry {
    /// The internal invariant: stored keys are pairwise distinct, each
    /// key equals its state's `game_id`, and each stored state is
    /// well-formed.
    pub closed spec fn inv(&self) -> bool {
        &&& keys_distinct(self.games@)
        &&& forall|i: int| 0 <= i < self.games@.len() ==> (#[trigger] self.games@[i]).1@.wf()
        &&& forall|i: int|
            0 <= i < self.games@.len() ==> (#[trigger] self.games@[i]).1@.game_id
                == self.games@[i].0@
    }

    /// An empty registry.
    pub fn new() -> (r: Registry)
        ensures
            r.inv(),
            r@ == Map::<Seq<char>, StateModel>::empty(),
    {
        let r = Registry { games: Vec::new() };
        proof {
            assert(r.games@.len() == 0);
        }
        r
    }

    /// Index of the entry holding `game_id`, if any.
    fn find(&self, game_id: &String) -> (r: Option<usize>)
        ensures
            match r {
                Some(i) => i < self.games@.len() && self.games@[i as int].0@ == game_id@,
                None => forall|i: int| 0 <= i < self.games@.len() ==> (#[trigger] self.games@[i]).0@
                    != game_id@,
            },
    {
        let mut idx: usize = 0;
        while idx < self.games.len()
            invariant
                idx <= self.games@.len(),
                forall|i: int| 0 <= i < idx ==> (#[trigger] self.games@[i]).0@ != game_id@,
            decreases self.games@.len() - idx,
        {
            if self.games[idx].0 == *game_id {
                return Some(idx);
            }
            idx += 1;
        }
        None
    }

    /// Store `st` under `game_id`, replacing any state already there.
    fn store(&mut self, game_id: String, st: GameState)
        requires
            old(self).inv(),
            st@.wf(),
            st@.game_id == game_id@,
        ensures
            final(self).inv(),
            final(self)@ == old(self)@.insert(game_id@, st@),
    {
        let ghost gid = game_id;
        let ghost gst = st;
        match self.find(&game_id) {
            Some(i) => {
                let ghost pre = self.games@;
                self.games[i] = (game_id, st);
                proof {
                    lemma_entries_map_update(pre, i as int, (gid, gst));
                    assert(keys_distinct(self.games@)) by {
                        assert(forall|a: int, b: int|
                            0 <= a < b < self.games@.len() && a != i && b != i
                                ==> self.games@[a].0@ == pre[a].0@ && self.games@[b].0@
                                == pre[b].0@);
                        assert(self.games@[i as int].0@ == pre[i as int].0@);
                    }
                }
            },
            None => {
                let ghost pre = self.games@;
                self.games.push((game_id, st));
                proof {
                    lemma_entries_map_push(pre, (gid, gst));
                    assert(keys_distinct(self.games@)) by {
                        assert(forall|a: int, b: int|
                            0 <= a < b < self.games@.len() - 1 ==> self.games@[a].0@ == pre[a].0@
                                && self.games@[b].0@ == pre[b].0@);
                        assert(self.games@[self.games@.len() - 1].0@ == gid@);
                    }
                }
            },
        }
    }

    /// Create a new session: a fresh game stored under its own
    /// identifier; both are returned. Never fails.
    pub fn create(&mut self) -> (r: (String, GameState))
        requires
            old(self).inv(),
        ensures
            final(self).inv(),
            r.1@ == fresh_state(r.1@.game_id),
            r.0@ == r.1@.game_id,
            r.1@.wf(),
            final(self)@ == old(self)@.insert(r.0@, r.1@),
    {
        let game = new_game();
        let id = game.game_id.clone();
        let ret = game.clone();
        self.store(id.clone(), game);
        (id, ret)
    }

    /// Read the current state of a session: a copy of the stored state,
    /// or `NotFound` when the identifier is unknown.
    pub fn get_state(&self, game_id: &String) -> (r: Result<GameState, RegistryError>)
        requires
            self.inv(),
        ensures
            self@.contains_key(game_id@) ==> (r matches Ok(g) && g@ == self@[game_id@] && g@.wf()
                && g@.game_id == game_id@),
            !self@.contains_key(game_id@) ==> r == Err::<GameState, RegistryError>(
                RegistryError::NotFound,
            ),
    {
        match self.find(game_id) {
            Some(i) => {
                let g = self.games[i].1.clone();
                proof {
                    lemma_entries_map_value(self.games@, game_id@, i as int);
                }
                Ok(g)
            },
            None => {
                proof {
                    lemma_entries_map_domain(self.games@, game_id@);
                }
                Err(RegistryError::NotFound)
            },
        }
    }

    /// Atomically replace the state of session `game_id` by the
    /// transition under `action` with the given combat roll, returning
    /// the new state; `NotFound`, and no change at all, when the
    /// identifier is unknown. No session is ever created here.
    pub fn apply_with_roll(&mut self, game_id: &String, action: &GameAction, roll: u8) -> (r:
        Result<GameState, RegistryError>)
        requires
            old(self).inv(),
        ensures
            final(self).inv(),
            !old(self)@.contains_key(game_id@) ==> r == Err::<GameState, RegistryError>(
                RegistryError::NotFound,
            ) && final(self)@ == old(self)@,
            old(self)@.contains_key(game_id@) ==> (r matches Ok(g) && g@ == transition(
                old(self)@[game_id@],
                action@,
                roll as int,
            ) && g@.game_id == game_id@ && final(self)@ == old(self)@.insert(game_id@, g@)),
    {
        let current = match self.get_state(game_id) {
            Ok(g) => g,
            Err(e) => {
                return Err(e);
            },
        };
        let updated = apply_action_with_roll(&current, action, roll);
        let ret = updated.clone();
        self.store(game_id.clone(), updated);
        Ok(ret)
    }

    /// Like `apply_with_roll`, with the combat roll drawn inside: the
    /// stored state is replaced by the transition under some roll in
    /// 0..=100, as one atomic read-modify-write.
    pub fn apply(&mut self, game_id: &String, action: &GameAction) -> (r: Result<
        GameState,
        RegistryError,
    >)
        requires
            old(self).inv(),
        ensures
            final(self).inv(),
            !old(self)@.contains_key(game_id@) ==> r == Err::<GameState, RegistryError>(
                RegistryError::NotFound,
            ) && final(self)@ == old(self)@,
            old(self)@.contains_key(game_id@) ==> (r matches Ok(g) && (exists|roll: int|
                0 <= roll <= 100 && g@ == transition(old(self)@[game_id@], action@, roll))
                && g@.game_id == game_id@ && final(self)@ == old(self)@.insert(game_id@, g@)),
    {
        let current = match self.get_state(game_id) {
            Ok(g) => g,
            Err(e) => {
                return Err(e);
            },
        };
        let updated = apply_action(&current, action);
        let ret = updated.clone();
        self.store(game_id.clone(), updated);
        Ok(ret)
    }
}

/// Parameters of a state request: the session to read.
#[derive(Debug)]
pub struct GetStateParams {
    pub game_id: String,
}

/// Parameters of an action request: the session and the action.
#[derive(Debug)]
pub struct ApplyActionParams {
    pub game_id: String,
    pub action: GameAction,
}

} // verus!
