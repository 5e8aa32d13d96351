//! The games that are open, by topic: joining a topic joins its one game.
use vstd::prelude::*;

verus! {

/// Open games keyed by their topic statement; each topic at most once.
pub struct AppState<T> {
    game_states: Vec<(String, T)>,
}

impl<T> AppState<T> {
    /// Topics and their games, in the order they were opened.
    pub closed spec fn entries(&self) -> Seq<(Seq<char>, T)> {
        self.game_states@.map_values(|e: (String, T)| (e.0@, e.1))
    }

    pub open spec fn wf(&self) -> bool {
        forall|i: int, j: int|
            0 <= i < j < self.entries().len() ==> #[trigger] self.entries()[i].0
                != #[trigger] self.entries()[j].0
    }

    pub fn new() -> (r: AppState<T>)
        ensures
            r.wf(),
            r.entries() == Seq::<(Seq<char>, T)>::empty(),
    {
        let r = AppState { game_states: Vec::new() };
        assert(r.entries() =~= Seq::<(Seq<char>, T)>::empty());
        r
    }

    /// Where the game on `topic` stands, if it is open.
    fn position(&self, topic: &String) -> (r: Option<usize>)
        ensures
            match r {
                Some(i) => i < self.entries().len() && self.entries()[i as int].0 == topic@,
                None => forall|i: int| 0 <= i < self.entries().len() ==> #[trigger] self.entries()[i].0 != topic@,
            },
    {
        let mut i: usize = 0;
        while i < self.game_states.len()
            invariant
                i <= self.entries().len(),
                self.entries().len() == self.game_states@.len(),
                forall|j: int| 0 <= j < i ==> #[trigger] self.entries()[j].0 != topic@,
            decreases self.game_states.len() - i,
        {
            assert(self.entries()[i as int].0 == self.game_states@[i as int].0@);
            if self.game_states[i].0 == *topic {
                return Some(i);
            }
            i += 1;
        }
        None
    }

    /// The game on `root_statement`; `fresh` is opened for it if there is none.
    pub fn get_or_create_game_state(&mut self, root_statement: String, fresh: T) -> (r: &T)
        requires
            old(self).wf(),
        ensures
            final(self).wf(),
            (exists|i: int| 0 <= i < old(self).entries().len() && #[trigger] old(self).entries()[i].0 == root_statement@) ==> {
                &&& final(self).entries() == old(self).entries()
                &&& exists|i: int| 0 <= i < old(self).entries().len() && #[trigger] old(self).entries()[i] == (root_statement@, *r)
            },
            !(exists|i: int| 0 <= i < old(self).entries().len() && #[trigger] old(self).entries()[i].0 == root_statement@) ==> {
                &&& final(self).entries() == old(self).entries().push((root_statement@, fresh))
                &&& *r == fresh
            },
    {
        match self.position(&root_statement) {
            Some(i) => &self.game_states[i].1,
            None => {
                let ghost topic = root_statement@;
                self.game_states.push((root_statement, fresh));
                proof {
                    assert(self.entries() =~= old(self).entries().push((topic, fresh)));
                }
                let last = self.game_states.len() - 1;
                &self.game_states[last].1
            },
        }
    }
}

} // verus!
