//! Who is connected to a game, and who receives each message.
use vstd::prelude::*;

use crate::seqs::{lemma_remove_all, lemma_remove_all_distinct, remove_all};
use crate::messages::PlayerId;
use crate::session::Recipient;

verus! {

/// The members of a shared game. Each joining client gets the next unused
/// id; ids are never handed out twice.
pub struct BroadcastMessenger {
    players: Vec<PlayerId>,
    next_id: PlayerId,
}

pub struct MembersView {
    pub players: Seq<PlayerId>,
    pub next_id: nat,
}

impl View for BroadcastMessenger {
    type V = MembersView;

    closed spec fn view(&self) -> MembersView {
        MembersView { players: self.players@, next_id: self.next_id as nat }
    }
}

/// The members in `v` who receive a message sent to `to`.
pub open spec fn recipients_of(v: MembersView, to: Recipient) -> Seq<PlayerId> {
    match to {
        Recipient::All => v.players,
        Recipient::Player(p) => if v.players.contains(p) {
            seq![p]
        } else {
            Seq::empty()
        },
    }
}

impl BroadcastMessenger {
    pub open spec fn wf(&self) -> bool {
        &&& self@.players.no_duplicates()
        &&& forall|i: int| 0 <= i < self@.players.len() ==> #[trigger] self@.players[i] < self@.next_id
    }

    pub fn new() -> (r: BroadcastMessenger)
        ensures
            r.wf(),
            r@.players == Seq::<PlayerId>::empty(),
            r@.next_id == 0,
    {
        BroadcastMessenger { players: Vec::new(), next_id: 0 }
    }

    /// The id that the next member will get.
    pub fn next_id(&self) -> (r: PlayerId)
        ensures
            r == self@.next_id,
    {
        self.next_id
    }

    /// Registers a new member under the next unused id.
    pub fn add_player(&mut self) -> (id: PlayerId)
        requires
            old(self).wf(),
            old(self)@.next_id < u64::MAX,
        ensures
            final(self).wf(),
            id == old(self)@.next_id,
            !old(self)@.players.contains(id),
            final(self)@.players == old(self)@.players.push(id),
            final(self)@.next_id == old(self)@.next_id + 1,
    {
        let id = self.next_id;
        proof {
            if self@.players.contains(id) {
                let k = choose|k: int| 0 <= k < self@.players.len() && self@.players[k] == id;
                assert(self@.players[k] < self@.next_id);
            }
        }
        self.players.push(id);
        self.next_id = self.next_id + 1;
        proof {
            assert forall|i: int, j: int|
                0 <= i < self@.players.len() && 0 <= j < self@.players.len() && i != j implies self@.players[i]
                != self@.players[j] by {
                if i < old(self)@.players.len() && j < old(self)@.players.len() {
                    assert(old(self)@.players.no_duplicates());
                } else if i < old(self)@.players.len() {
                    assert(old(self)@.players[i] < old(self)@.next_id);
                } else if j < old(self)@.players.len() {
                    assert(old(self)@.players[j] < old(self)@.next_id);
                }
            }
            assert forall|i: int| 0 <= i < self@.players.len() implies #[trigger] self@.players[i]
                < self@.next_id by {
                if i < old(self)@.players.len() {
                    assert(old(self)@.players[i] < old(self)@.next_id);
                }
            }
        }
        id
    }

    /// Deregisters a member; later messages skip it.
    pub fn remove_player(&mut self, player_id: PlayerId)
        requires
            old(self).wf(),
        ensures
            final(self).wf(),
            final(self)@.next_id == old(self)@.next_id,
            final(self)@.players == remove_all(old(self)@.players, player_id),
    {
        let mut kept: Vec<PlayerId> = Vec::new();
        let mut i: usize = 0;
        while i < self.players.len()
            invariant
                self@ == old(self)@,
                i <= self@.players.len(),
                kept@ == remove_all(self@.players.subrange(0, i as int), player_id),
            decreases self.players.len() - i,
        {
            assert(self@.players.subrange(0, i + 1).drop_last() =~= self@.players.subrange(0, i as int));
            if self.players[i] != player_id {
                kept.push(self.players[i]);
            }
            i += 1;
        }
        assert(self@.players.subrange(0, i as int) =~= self@.players);
        proof {
            lemma_remove_all(old(self)@.players, player_id);
            lemma_remove_all_distinct(old(self)@.players, player_id);
        }
        self.players = kept;
        proof {
            assert forall|i: int| 0 <= i < self@.players.len() implies #[trigger] self@.players[i]
                < self@.next_id by {
                assert(self@.players.contains(self@.players[i]));
                let k = choose|k: int| 0 <= k < old(self)@.players.len() && old(self)@.players[k] == self@.players[i];
                assert(old(self)@.players[k] < old(self)@.next_id);
            }
        }
    }

    /// The members that a message to `to` reaches.
    pub fn recipients(&self, to: Recipient) -> (r: Vec<PlayerId>)
        ensures
            r@ == recipients_of(self@, to),
    {
        let mut r: Vec<PlayerId> = Vec::new();
        let mut i: usize = 0;
        while i < self.players.len()
            invariant
                i <= self@.players.len(),
                match to {
                    Recipient::All => r@ == self@.players.subrange(0, i as int),
                    Recipient::Player(p) => if self@.players.subrange(0, i as int).contains(p) {
                        r@ == seq![p]
                    } else {
                        r@ == Seq::<PlayerId>::empty()
                    },
                },
            decreases self.players.len() - i,
        {
            let id = self.players[i];
            proof {
                assert(self@.players.subrange(0, i + 1) =~= self@.players.subrange(0, i as int).push(id));
                assert(self@.players.subrange(0, i as int).push(id)[i as int] == id);
            }
            match to {
                Recipient::All => r.push(id),
                Recipient::Player(p) => {
                    if p == id && r.len() == 0 {
                        r.push(id);
                    }
                    proof {
                        let pre = self@.players.subrange(0, i as int);
                        if pre.push(id).contains(p) && !pre.contains(p) {
                            let k = choose|k: int| 0 <= k < pre.push(id).len() && pre.push(id)[k] == p;
                            if k < pre.len() {
                                assert(pre[k] == p);
                            }
                        }
                        if pre.contains(p) {
                            let k = choose|k: int| 0 <= k < pre.len() && pre[k] == p;
                            assert(pre.push(id)[k] == p);
                        }
                    }
                },
            }
            i += 1;
        }
        assert(self@.players.subrange(0, i as int) =~= self@.players);
        r
    }
}

} // verus!
