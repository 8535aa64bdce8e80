//! The screen stack and transition engine.
//!
//! The engine is the decision half of the application's main loop. It owns
//! the model of the screen stack -- which instances live, in what order, and
//! whether a draw is owed -- and, for each input (a terminal event, one
//! navigation [`Action`], or the completion of the top screen's background
//! work), it updates the model and hands back the exact script of lifecycle
//! callbacks, as [`Effect`]s, that the runner must perform, in order.
//!
//! The runner is expected to drive it like this, once per loop iteration:
//! draw the top screen and call [`Engine::mark_drawn`] whenever
//! [`Engine::dirty`] is set; then await the first of the three sources; then
//! call [`Engine::note_input`], [`Engine::apply`] or
//! [`Engine::note_background`] and perform the returned effects; and stop
//! when [`Engine::running`] has become false.
//!
//! Every instance is identified by a ghost token, and every callback the
//! engine commands is recorded in a ghost history that the engine keeps
//! [`legal`] at all times: the lifecycle laws of [`crate::lifecycle`]
//! therefore hold of every run.

use vstd::prelude::*;

use crate::lifecycle::{
    legal, phase_of, tok, lemma_legal_push, lemma_phase_push, lemma_unused_unborn, LifeEvent,
};
use crate::navigation::Action;

verus! {

/// How a screen instance was constructed.
#[derive(Debug, Clone, Copy, PartialEq, Eq)]
pub enum Origin<ID> {
    /// By `default()`: the initial screen, or the screen a `Restart` makes.
    Initial,
    /// By `new(id)`: the screen a `Push` or `Replace` of that `id` makes.
    ById(ID),
}

/// One live screen instance on the stack: its construction origin, and the
/// ghost token that identifies it in the history.
pub struct Slot<ID> {
    /// How the instance was constructed.
    pub origin: Origin<ID>,
    /// The identity of this instance in the engine's history.
    pub token: Ghost<nat>,
}

/// One lifecycle command for the runner. Effects are handed out in the
/// order the runner must perform them; each speaks of the runner's own
/// screen stack, which mirrors the engine's.
#[derive(Debug, Clone, Copy, PartialEq, Eq)]
pub enum Effect<ID> {
    /// Call `on_pause` on the current top screen.
    PauseTop,
    /// Call `on_resume` on the current top screen (after a pop).
    ResumeTop,
    /// Pop the top screen, call `on_exit` on it, and destroy it.
    ExitTop,
    /// Remove the screen just below the top, call `on_exit` on it, and
    /// destroy it; the top stays.
    ExitBelowTop,
    /// Construct a screen by `default()`, call `on_enter` on it, and push
    /// it on top.
    PushInitial,
    /// Construct a screen by `new(id)`, call `on_enter` on it, and push it
    /// on top.
    PushNew(ID),
}

/// The screen stack and lifecycle engine.
pub struct Engine<ID> {
    /// The live screen instances, bottom first; the last is the top, the
    /// only active one.
    pub stack: Vec<Slot<ID>>,
    /// True when a draw is owed before the next await.
    pub dirty: bool,
    /// True from initialization until an `Exit` action is applied.
    pub running: bool,
    /// Every lifecycle callback commanded so far, in order.
    pub history: Ghost<Seq<LifeEvent>>,
    /// The next unused instance token.
    pub next_token: Ghost<nat>,
}

impl<ID> Engine<ID> {
    /// The token of the top (active) instance.
    pub open spec fn top_token(self) -> nat {
        self.stack@.last().token@
    }

    /// The engine's invariant: the history is legal, tokens are distinct
    /// and below `next_token`, the stack is non-empty exactly while the
    /// engine runs, the top instance is active, and every instance below
    /// the top is dormant.
    pub open spec fn wf(self) -> bool {
        &&& legal(self.history@)
        &&& (forall|i: int| 0 <= i < self.stack@.len() ==> (#[trigger] self.stack@[i].token@)
            < self.next_token@)
        &&& (forall|i: int, j: int|
            0 <= i < j < self.stack@.len() ==> (#[trigger] self.stack@[i].token@) != (
            #[trigger] self.stack@[j].token@))
        &&& (forall|k: int| 0 <= k < self.history@.len() ==> tok(#[trigger] self.history@[k])
            < self.next_token@)
        &&& (self.running ==> self.stack@.len() >= 1)
        &&& (!self.running ==> self.stack@.len() == 0)
        &&& (self.running ==> phase_of(self.history@, self.top_token()) is Active)
        &&& (forall|i: int|
            0 <= i < self.stack@.len() - 1 ==> phase_of(
                self.history@,
                #[trigger] self.stack@[i].token@,
            ) is Dormant)
        &&& (forall|t: nat|
            phase_of(self.history@, t) is Active ==> self.stack@.len() >= 1 && t
                == self.top_token())
    }
}

/// The exit events of all instances of the stack `s`, top first.
pub open spec fn exits_top_down<ID>(s: Seq<Slot<ID>>) -> Seq<LifeEvent> {
    Seq::new(s.len(), |i: int| LifeEvent::Exited(s[s.len() - 1 - i].token@))
}

/// The exit events of the instances below the top of `s`, highest first.
pub open spec fn exits_below_top<ID>(s: Seq<Slot<ID>>) -> Seq<LifeEvent>
    recommends
        s.len() >= 1,
{
    Seq::new((s.len() - 1) as nat, |i: int| LifeEvent::Exited(s[s.len() - 2 - i].token@))
}

/// `n` [`Effect::ExitTop`] commands.
pub open spec fn exit_top_effects<ID>(n: nat) -> Seq<Effect<ID>> {
    Seq::new(n, |i: int| Effect::ExitTop)
}

/// `n` [`Effect::ExitBelowTop`] commands.
pub open spec fn exit_below_effects<ID>(n: nat) -> Seq<Effect<ID>> {
    Seq::new(n, |i: int| Effect::ExitBelowTop)
}

/// What applying `Push(id)` does: the previous top is paused, a fresh
/// instance made by `new(id)` is entered and becomes the new top, and a
/// draw is owed.
pub open spec fn applied_push<ID>(
    pre: Engine<ID>,
    post: Engine<ID>,
    id: ID,
    effects: Seq<Effect<ID>>,
) -> bool {
    let t0 = pre.top_token();
    let t1 = pre.next_token@;
    &&& post.stack@.len() == pre.stack@.len() + 1
    &&& (forall|i: int| 0 <= i < pre.stack@.len() ==> #[trigger] post.stack@[i] == pre.stack@[i])
    &&& post.stack@.last().origin == Origin::ById(id)
    &&& post.stack@.last().token@ == t1
    &&& post.dirty
    &&& post.running
    &&& post.next_token@ == t1 + 1
    &&& post.history@ == pre.history@ + seq![
        LifeEvent::Paused(t0),
        LifeEvent::Created(t1),
        LifeEvent::Entered(t1),
    ]
    &&& effects == seq![Effect::PauseTop, Effect::PushNew(id)]
}

/// What applying `Replace(id)` does: the previous top exits and is
/// destroyed, a fresh instance made by `new(id)` is entered and takes its
/// place, and a draw is owed.
pub open spec fn applied_replace<ID>(
    pre: Engine<ID>,
    post: Engine<ID>,
    id: ID,
    effects: Seq<Effect<ID>>,
) -> bool {
    let t0 = pre.top_token();
    let t1 = pre.next_token@;
    &&& post.stack@.len() == pre.stack@.len()
    &&& (forall|i: int|
        0 <= i < pre.stack@.len() - 1 ==> #[trigger] post.stack@[i] == pre.stack@[i])
    &&& post.stack@.last().origin == Origin::ById(id)
    &&& post.stack@.last().token@ == t1
    &&& post.dirty
    &&& post.running
    &&& post.next_token@ == t1 + 1
    &&& post.history@ == pre.history@ + seq![
        LifeEvent::Exited(t0),
        LifeEvent::Created(t1),
        LifeEvent::Entered(t1),
    ]
    &&& effects == seq![Effect::ExitTop, Effect::PushNew(id)]
}

/// What applying `Back` does: on a stack of more than one screen, the top
/// exits and is destroyed, the screen below resumes and a draw is owed; on
/// a stack of one screen, nothing at all.
pub open spec fn applied_back<ID>(pre: Engine<ID>, post: Engine<ID>, effects: Seq<Effect<ID>>) -> bool {
    if pre.stack@.len() > 1 {
        let t0 = pre.top_token();
        let t_below = pre.stack@[pre.stack@.len() - 2].token@;
        &&& post.stack@ == pre.stack@.drop_last()
        &&& post.dirty
        &&& post.running
        &&& post.next_token@ == pre.next_token@
        &&& post.history@ == pre.history@ + seq![
            LifeEvent::Exited(t0),
            LifeEvent::Resumed(t_below),
        ]
        &&& effects == seq![Effect::<ID>::ExitTop, Effect::ResumeTop]
    } else {
        &&& post == pre
        &&& effects == Seq::<Effect<ID>>::empty()
    }
}

/// What applying `Clear` does: every screen below the top exits, highest
/// first, and is destroyed; the top stays, is not re-entered, and no draw
/// is owed on this account.
pub open spec fn applied_clear<ID>(pre: Engine<ID>, post: Engine<ID>, effects: Seq<Effect<ID>>) -> bool {
    &&& post.stack@ == seq![pre.stack@.last()]
    &&& post.dirty == pre.dirty
    &&& post.running
    &&& post.next_token@ == pre.next_token@
    &&& post.history@ == pre.history@ + exits_below_top(pre.stack@)
    &&& effects == exit_below_effects::<ID>((pre.stack@.len() - 1) as nat)
}

/// What applying `Restart` does: every screen exits, top first, and is
/// destroyed; a fresh instance made by `default()` is entered and becomes
/// the only screen, and a draw is owed.
pub open spec fn applied_restart<ID>(pre: Engine<ID>, post: Engine<ID>, effects: Seq<Effect<ID>>) -> bool {
    let t1 = pre.next_token@;
    &&& post.stack@.len() == 1
    &&& post.stack@[0].origin == Origin::<ID>::Initial
    &&& post.stack@[0].token@ == t1
    &&& post.dirty
    &&& post.running
    &&& post.next_token@ == t1 + 1
    &&& post.history@ == pre.history@ + exits_top_down(pre.stack@) + seq![
        LifeEvent::Created(t1),
        LifeEvent::Entered(t1),
    ]
    &&& effects == exit_top_effects::<ID>(pre.stack@.len()).push(Effect::PushInitial)
}

/// What applying `Exit` does: every screen alive at that point exits, top
/// first, and is destroyed; the engine stops running.
pub open spec fn applied_exit<ID>(pre: Engine<ID>, post: Engine<ID>, effects: Seq<Effect<ID>>) -> bool {
    &&& post.stack@.len() == 0
    &&& !post.running
    &&& post.dirty == pre.dirty
    &&& post.next_token@ == pre.next_token@
    &&& post.history@ == pre.history@ + exits_top_down(pre.stack@)
    &&& effects == exit_top_effects::<ID>(pre.stack@.len())
}

/// What applying `Rerender` does: a draw is owed; nothing else changes and
/// no callback fires.
pub open spec fn applied_rerender<ID>(pre: Engine<ID>, post: Engine<ID>, effects: Seq<Effect<ID>>) -> bool {
    &&& post.stack@ == pre.stack@
    &&& post.dirty
    &&& post.running == pre.running
    &&& post.next_token@ == pre.next_token@
    &&& post.history@ == pre.history@
    &&& effects == Seq::<Effect<ID>>::empty()
}

impl<ID: Copy> Engine<ID> {
    /// Start an application: one instance made by `default()` is entered
    /// and forms the whole stack, and the first draw is owed.
    ///
    /// The returned effects tell the runner to construct that instance,
    /// call `on_enter` on it and push it.
    pub fn init() -> (r: (Engine<ID>, Vec<Effect<ID>>))
        ensures
            r.0.wf(),
            r.0.running,
            r.0.dirty,
            r.0.stack@.len() == 1,
            r.0.stack@[0].origin == Origin::<ID>::Initial,
            r.0.stack@[0].token@ == 0,
            r.0.history@ == seq![LifeEvent::Created(0nat), LifeEvent::Entered(0nat)],
            r.0.next_token@ == 1,
            r.1@ == seq![Effect::<ID>::PushInitial],
    {
        let ghost h0 = Seq::<LifeEvent>::empty();
        let ghost h1 = h0.push(LifeEvent::Created(0nat));
        let ghost h2 = h1.push(LifeEvent::Entered(0nat));
        proof {
            lemma_unused_unborn(h0, 0nat);
            lemma_legal_push(h0, LifeEvent::Created(0nat));
            lemma_phase_push(h0, LifeEvent::Created(0nat), 0nat);
            lemma_legal_push(h1, LifeEvent::Entered(0nat));
            lemma_phase_push(h1, LifeEvent::Entered(0nat), 0nat);
            assert(h2 =~= seq![LifeEvent::Created(0nat), LifeEvent::Entered(0nat)]);
            assert forall|u: nat| phase_of(h2, u) is Active implies u == 0nat by {
                if u != 0nat {
                    assert(phase_of(h0, u) is Unborn);
                    lemma_phase_push(h0, LifeEvent::Created(0nat), u);
                    lemma_phase_push(h1, LifeEvent::Entered(0nat), u);
                }
            }
        }
        let mut stack: Vec<Slot<ID>> = Vec::new();
        stack.push(Slot { origin: Origin::Initial, token: Ghost(0nat) });
        let engine = Engine {
            stack,
            dirty: true,
            running: true,
            history: Ghost(h2),
            next_token: Ghost(1nat),
        };
        let mut effects: Vec<Effect<ID>> = Vec::new();
        effects.push(Effect::PushInitial);
        (engine, effects)
    }

    /// Record that the top screen has just been drawn; the owed draw is
    /// paid. Only the top screen is ever drawn.
    pub fn mark_drawn(&mut self)
        requires
            old(self).wf(),
            old(self).running,
            old(self).dirty,
        ensures
            final(self).wf(),
            final(self).stack@ == old(self).stack@,
            !final(self).dirty,
            final(self).running,
            final(self).next_token@ == old(self).next_token@,
            final(self).history@ == old(self).history@.push(
                LifeEvent::Drew(old(self).top_token()),
            ),
    {
        let ghost t = self.top_token();
        proof {
            lemma_legal_push(self.history@, LifeEvent::Drew(t));
            lemma_phase_push(self.history@, LifeEvent::Drew(t), t);
            assert forall|i: int| 0 <= i < self.stack@.len() implies phase_of(
                self.history@.push(LifeEvent::Drew(t)),
                #[trigger] self.stack@[i].token@,
            ) == phase_of(self.history@, self.stack@[i].token@) by {
                lemma_phase_push(self.history@, LifeEvent::Drew(t), self.stack@[i].token@);
            }
            assert forall|u: nat| phase_of(self.history@.push(LifeEvent::Drew(t)), u) is Active
                implies u == t by {
                lemma_phase_push(self.history@, LifeEvent::Drew(t), u);
            }
        }
        self.history = Ghost(self.history@.push(LifeEvent::Drew(t)));
        self.dirty = false;
    }

    /// Record that one terminal event is about to be handed to the top
    /// screen -- the only screen that receives events. A resize owes a
    /// draw. An owed draw must have been paid before the loop awaited
    /// this event.
    pub fn note_input(&mut self, resize: bool)
        requires
            old(self).wf(),
            old(self).running,
            !old(self).dirty,
        ensures
            final(self).wf(),
            final(self).stack@ == old(self).stack@,
            final(self).dirty == (old(self).dirty || resize),
            final(self).running,
            final(self).next_token@ == old(self).next_token@,
            final(self).history@ == old(self).history@.push(
                LifeEvent::Handled(old(self).top_token()),
            ),
    {
        let ghost t = self.top_token();
        proof {
            lemma_legal_push(self.history@, LifeEvent::Handled(t));
            assert forall|i: int| 0 <= i < self.stack@.len() implies phase_of(
                self.history@.push(LifeEvent::Handled(t)),
                #[trigger] self.stack@[i].token@,
            ) == phase_of(self.history@, self.stack@[i].token@) by {
                lemma_phase_push(self.history@, LifeEvent::Handled(t), self.stack@[i].token@);
            }
            assert forall|u: nat| phase_of(self.history@.push(LifeEvent::Handled(t)), u) is Active
                implies u == t by {
                lemma_phase_push(self.history@, LifeEvent::Handled(t), u);
            }
        }
        self.history = Ghost(self.history@.push(LifeEvent::Handled(t)));
        if resize {
            self.dirty = true;
        }
    }

    /// Record that the top screen's background work completed -- only the
    /// top screen's background is ever raced. A draw is owed and the
    /// runner re-arms the background on the next iteration.
    pub fn note_background(&mut self)
        requires
            old(self).wf(),
            old(self).running,
            !old(self).dirty,
        ensures
            final(self).wf(),
            final(self).stack@ == old(self).stack@,
            final(self).dirty,
            final(self).running,
            final(self).next_token@ == old(self).next_token@,
            final(self).history@ == old(self).history@.push(
                LifeEvent::Ticked(old(self).top_token()),
            ),
    {
        let ghost t = self.top_token();
        proof {
            lemma_legal_push(self.history@, LifeEvent::Ticked(t));
            assert forall|i: int| 0 <= i < self.stack@.len() implies phase_of(
                self.history@.push(LifeEvent::Ticked(t)),
                #[trigger] self.stack@[i].token@,
            ) == phase_of(self.history@, self.stack@[i].token@) by {
                lemma_phase_push(self.history@, LifeEvent::Ticked(t), self.stack@[i].token@);
            }
            assert forall|u: nat| phase_of(self.history@.push(LifeEvent::Ticked(t)), u) is Active
                implies u == t by {
                lemma_phase_push(self.history@, LifeEvent::Ticked(t), u);
            }
        }
        self.history = Ghost(self.history@.push(LifeEvent::Ticked(t)));
        self.dirty = true;
    }

    /// Apply one navigation action according to the transition table, and
    /// return the callback script the runner must perform, in order. Only
    /// one action is consumed per loop iteration, and an owed draw must
    /// have been paid first: after an action that owes a draw -- a
    /// `Rerender` above all -- exactly one draw of the then-current top
    /// happens before the engine accepts the next event, action or
    /// background completion.
    pub fn apply(&mut self, action: Action<ID>) -> (effects: Vec<Effect<ID>>)
        requires
            old(self).wf(),
            old(self).running,
            !old(self).dirty,
        ensures
            final(self).wf(),
            match action {
                Action::Push(id) => applied_push(*old(self), *final(self), id, effects@),
                Action::Replace(id) => applied_replace(*old(self), *final(self), id, effects@),
                Action::Back => applied_back(*old(self), *final(self), effects@),
                Action::Clear => applied_clear(*old(self), *final(self), effects@),
                Action::Restart => applied_restart(*old(self), *final(self), effects@),
                Action::Exit => applied_exit(*old(self), *final(self), effects@),
                Action::Rerender => applied_rerender(*old(self), *final(self), effects@),
            },
    {
        let ghost pre = *self;
        match action {
            Action::Push(id) => {
                let ghost t0 = self.top_token();
                let ghost t1 = self.next_token@;
                let ghost h0 = self.history@;
                let ghost h1 = h0.push(LifeEvent::Paused(t0));
                let ghost h2 = h1.push(LifeEvent::Created(t1));
                let ghost h3 = h2.push(LifeEvent::Entered(t1));
                proof {
                    lemma_legal_push(h0, LifeEvent::Paused(t0));
                    lemma_fresh_unborn(pre, t0, LifeEvent::Paused(t0));
                    lemma_legal_push(h1, LifeEvent::Created(t1));
                    lemma_phase_push(h1, LifeEvent::Created(t1), t1);
                    lemma_legal_push(h2, LifeEvent::Entered(t1));
                    lemma_phase_push(h2, LifeEvent::Entered(t1), t1);
                }
                self.history = Ghost(h3);
                self.stack.push(Slot { origin: Origin::ById(id), token: Ghost(t1) });
                self.next_token = Ghost(t1 + 1);
                self.dirty = true;
                let mut effects: Vec<Effect<ID>> = Vec::new();
                effects.push(Effect::PauseTop);
                effects.push(Effect::PushNew(id));
                proof {
                    assert(h3 =~= h0 + seq![
                        LifeEvent::Paused(t0),
                        LifeEvent::Created(t1),
                        LifeEvent::Entered(t1),
                    ]);
                    assert(effects@ =~= seq![Effect::<ID>::PauseTop, Effect::PushNew(id)]);
                    assert forall|i: int| 0 <= i < self.stack@.len() - 1 implies phase_of(
                        h3,
                        #[trigger] self.stack@[i].token@,
                    ) is Dormant by {
                        let ti = self.stack@[i].token@;
                        lemma_phase_push(h0, LifeEvent::Paused(t0), ti);
                        lemma_phase_push(h1, LifeEvent::Created(t1), ti);
                        lemma_phase_push(h2, LifeEvent::Entered(t1), ti);
                        if i < pre.stack@.len() - 1 {
                            assert(pre.stack@[i].token@ == ti);
                            assert(ti != t0);
                        }
                    }
                    assert forall|u: nat| phase_of(h3, u) is Active implies u == t1 by {
                        lemma_phase_push(h0, LifeEvent::Paused(t0), u);
                        lemma_phase_push(h1, LifeEvent::Created(t1), u);
                        lemma_phase_push(h2, LifeEvent::Entered(t1), u);
                    }
                }
                effects
            },
            Action::Replace(id) => {
                let ghost t0 = self.top_token();
                let ghost t1 = self.next_token@;
                let ghost h0 = self.history@;
                let ghost h1 = h0.push(LifeEvent::Exited(t0));
                let ghost h2 = h1.push(LifeEvent::Created(t1));
                let ghost h3 = h2.push(LifeEvent::Entered(t1));
                proof {
                    lemma_legal_push(h0, LifeEvent::Exited(t0));
                    lemma_fresh_unborn(pre, t0, LifeEvent::Exited(t0));
                    lemma_legal_push(h1, LifeEvent::Created(t1));
                    lemma_phase_push(h1, LifeEvent::Created(t1), t1);
                    lemma_legal_push(h2, LifeEvent::Entered(t1));
                    lemma_phase_push(h2, LifeEvent::Entered(t1), t1);
                }
                self.history = Ghost(h3);
                self.stack.pop().unwrap();
                self.stack.push(Slot { origin: Origin::ById(id), token: Ghost(t1) });
                self.next_token = Ghost(t1 + 1);
                self.dirty = true;
                let mut effects: Vec<Effect<ID>> = Vec::new();
                effects.push(Effect::ExitTop);
                effects.push(Effect::PushNew(id));
                proof {
                    assert(h3 =~= h0 + seq![
                        LifeEvent::Exited(t0),
                        LifeEvent::Created(t1),
                        LifeEvent::Entered(t1),
                    ]);
                    assert(effects@ =~= seq![Effect::<ID>::ExitTop, Effect::PushNew(id)]);
                    assert forall|i: int| 0 <= i < self.stack@.len() - 1 implies phase_of(
                        h3,
                        #[trigger] self.stack@[i].token@,
                    ) is Dormant by {
                        let ti = self.stack@[i].token@;
                        assert(pre.stack@[i].token@ == ti);
                        assert(ti != t0);
                        lemma_phase_push(h0, LifeEvent::Exited(t0), ti);
                        lemma_phase_push(h1, LifeEvent::Created(t1), ti);
                        lemma_phase_push(h2, LifeEvent::Entered(t1), ti);
                    }
                    assert forall|u: nat| phase_of(h3, u) is Active implies u == t1 by {
                        lemma_phase_push(h0, LifeEvent::Exited(t0), u);
                        lemma_phase_push(h1, LifeEvent::Created(t1), u);
                        lemma_phase_push(h2, LifeEvent::Entered(t1), u);
                    }
                }
                effects
            },
            Action::Back => {
                let mut effects: Vec<Effect<ID>> = Vec::new();
                if self.stack.len() > 1 {
                    let ghost t0 = self.top_token();
                    let ghost t_below = self.stack@[self.stack@.len() - 2].token@;
                    let ghost h0 = self.history@;
                    let ghost h1 = h0.push(LifeEvent::Exited(t0));
                    let ghost h2 = h1.push(LifeEvent::Resumed(t_below));
                    proof {
                        lemma_legal_push(h0, LifeEvent::Exited(t0));
                        assert(t_below != t0);
                        lemma_phase_push(h0, LifeEvent::Exited(t0), t_below);
                        lemma_legal_push(h1, LifeEvent::Resumed(t_below));
                        lemma_phase_push(h1, LifeEvent::Resumed(t_below), t_below);
                    }
                    self.history = Ghost(h2);
                    self.stack.pop().unwrap();
                    self.dirty = true;
                    effects.push(Effect::ExitTop);
                    effects.push(Effect::ResumeTop);
                    proof {
                        assert(h2 =~= h0 + seq![
                            LifeEvent::Exited(t0),
                            LifeEvent::Resumed(t_below),
                        ]);
                        assert(effects@ =~= seq![Effect::<ID>::ExitTop, Effect::ResumeTop]);
                        assert(self.stack@ =~= pre.stack@.drop_last());
                        assert forall|i: int| 0 <= i < self.stack@.len() - 1 implies phase_of(
                            h2,
                            #[trigger] self.stack@[i].token@,
                        ) is Dormant by {
                            let ti = self.stack@[i].token@;
                            assert(pre.stack@[i].token@ == ti);
                            assert(ti != t0);
                            assert(ti != t_below);
                            lemma_phase_push(h0, LifeEvent::Exited(t0), ti);
                            lemma_phase_push(h1, LifeEvent::Resumed(t_below), ti);
                        }
                        assert forall|u: nat| phase_of(h2, u) is Active implies u == t_below by {
                            lemma_phase_push(h0, LifeEvent::Exited(t0), u);
                            lemma_phase_push(h1, LifeEvent::Resumed(t_below), u);
                        }
                    }
                }
                effects
            },
            Action::Clear => {
                let ghost n = pre.stack@.len() as int;
                let mut effects: Vec<Effect<ID>> = Vec::new();
                while self.stack.len() > 1
                    invariant
                        pre.wf(),
                        pre.running,
                        n == pre.stack@.len(),
                        1 <= self.stack@.len() <= n,
                        self.stack@ == pre.stack@.take(self.stack@.len() - 1).push(
                            pre.stack@.last(),
                        ),
                        self.history@ == pre.history@ + exits_below_top(pre.stack@).take(
                            n - self.stack@.len(),
                        ),
                        effects@ == exit_below_effects::<ID>((n - self.stack@.len()) as nat),
                        legal(self.history@),
                        self.dirty == pre.dirty,
                        self.running,
                        self.next_token@ == pre.next_token@,
                        forall|k: int|
                            0 <= k < self.history@.len() ==> tok(#[trigger] self.history@[k])
                                < self.next_token@,
                        phase_of(self.history@, pre.top_token()) is Active,
                        forall|i: int|
                            0 <= i < self.stack@.len() - 1 ==> phase_of(
                                self.history@,
                                #[trigger] self.stack@[i].token@,
                            ) is Dormant,
                        forall|u: nat|
                            phase_of(self.history@, u) is Active ==> u == pre.top_token(),
                    decreases self.stack@.len(),
                {
                    let ghost m = self.stack@.len() as int;
                    let ghost h0 = self.history@;
                    let ghost tv = self.stack@[m - 2].token@;
                    proof {
                        lemma_legal_push(h0, LifeEvent::Exited(tv));
                    }
                    self.history = Ghost(h0.push(LifeEvent::Exited(tv)));
                    let idx = self.stack.len() - 2;
                    let departed = self.stack.remove(idx);
                    effects.push(Effect::ExitBelowTop);
                    proof {
                        assert(departed.token@ == tv);
                        assert(self.stack@ =~= pre.stack@.take(m - 2).push(pre.stack@.last()));
                        assert(exits_below_top(pre.stack@).take(n - m + 1) =~= exits_below_top(
                            pre.stack@,
                        ).take(n - m).push(LifeEvent::Exited(tv)));
                        assert(self.history@ =~= pre.history@ + exits_below_top(pre.stack@).take(
                            n - m + 1,
                        ));
                        assert(effects@ =~= exit_below_effects::<ID>((n - m + 1) as nat));
                        assert(pre.top_token() != tv);
                        lemma_phase_push(h0, LifeEvent::Exited(tv), pre.top_token());
                        assert forall|i: int| 0 <= i < self.stack@.len() - 1 implies phase_of(
                            self.history@,
                            #[trigger] self.stack@[i].token@,
                        ) is Dormant by {
                            let ti = self.stack@[i].token@;
                            assert(pre.stack@[i].token@ == ti);
                            assert(ti != tv);
                            lemma_phase_push(h0, LifeEvent::Exited(tv), ti);
                        }
                        assert forall|u: nat| phase_of(self.history@, u) is Active implies u
                            == pre.top_token() by {
                            lemma_phase_push(h0, LifeEvent::Exited(tv), u);
                        }
                    }
                }
                proof {
                    assert(self.stack@ =~= seq![pre.stack@.last()]);
                    assert(exits_below_top(pre.stack@).take(n - 1) =~= exits_below_top(pre.stack@));
                    assert(self.history@ == pre.history@ + exits_below_top(pre.stack@));
                    assert(phase_of(self.history@, self.top_token()) is Active);
                }
                effects
            },
            Action::Restart => {
                let mut effects: Vec<Effect<ID>> = self.drain_stack(Ghost(pre));
                let ghost t1 = self.next_token@;
                let ghost h0 = self.history@;
                let ghost h1 = h0.push(LifeEvent::Created(t1));
                let ghost h2 = h1.push(LifeEvent::Entered(t1));
                proof {
                    lemma_unused_unborn(h0, t1);
                    lemma_legal_push(h0, LifeEvent::Created(t1));
                    lemma_phase_push(h0, LifeEvent::Created(t1), t1);
                    lemma_legal_push(h1, LifeEvent::Entered(t1));
                    lemma_phase_push(h1, LifeEvent::Entered(t1), t1);
                }
                self.history = Ghost(h2);
                self.stack.push(Slot { origin: Origin::Initial, token: Ghost(t1) });
                self.next_token = Ghost(t1 + 1);
                self.dirty = true;
                effects.push(Effect::PushInitial);
                proof {
                    assert(h2 =~= (pre.history@ + exits_top_down(pre.stack@)) + seq![
                        LifeEvent::Created(t1),
                        LifeEvent::Entered(t1),
                    ]);
                    assert(effects@ =~= exit_top_effects::<ID>(pre.stack@.len()).push(
                        Effect::PushInitial,
                    ));
                    assert forall|u: nat| phase_of(h2, u) is Active implies u == t1 by {
                        lemma_phase_push(h0, LifeEvent::Created(t1), u);
                        lemma_phase_push(h1, LifeEvent::Entered(t1), u);
                    }
                }
                effects
            },
            Action::Exit => {
                let effects = self.drain_stack(Ghost(pre));
                self.running = false;
                effects
            },
            Action::Rerender => {
                self.dirty = true;
                let effects: Vec<Effect<ID>> = Vec::new();
                proof {
                    assert(effects@ =~= Seq::<Effect<ID>>::empty());
                }
                effects
            },
        }
    }

    /// Pop and exit every screen, top first. Afterwards the stack is empty
    /// and the `running` flag still holds its old value; `Exit` clears it,
    /// `Restart` pushes the new initial screen.
    fn drain_stack(&mut self, Ghost(pre): Ghost<Engine<ID>>) -> (effects: Vec<Effect<ID>>)
        requires
            old(self).wf(),
            old(self).running,
            pre == *old(self),
        ensures
            final(self).stack@.len() == 0,
            final(self).dirty == old(self).dirty,
            final(self).running,
            final(self).next_token@ == old(self).next_token@,
            final(self).history@ == old(self).history@ + exits_top_down(old(self).stack@),
            effects@ == exit_top_effects::<ID>(old(self).stack@.len()),
            legal(final(self).history@),
            forall|k: int|
                0 <= k < final(self).history@.len() ==> tok(#[trigger] final(self).history@[k])
                    < final(self).next_token@,
            forall|u: nat| !(phase_of(final(self).history@, u) is Active),
    {
        let ghost n = pre.stack@.len() as int;
        let mut effects: Vec<Effect<ID>> = Vec::new();
        while self.stack.len() > 0
            invariant
                pre.wf(),
                pre.running,
                n == pre.stack@.len(),
                0 <= self.stack@.len() <= n,
                self.stack@ == pre.stack@.take(self.stack@.len() as int),
                self.history@ == pre.history@ + exits_top_down(pre.stack@).take(
                    n - self.stack@.len(),
                ),
                effects@ == exit_top_effects::<ID>((n - self.stack@.len()) as nat),
                legal(self.history@),
                self.dirty == pre.dirty,
                self.running,
                self.next_token@ == pre.next_token@,
                forall|k: int|
                    0 <= k < self.history@.len() ==> tok(#[trigger] self.history@[k])
                        < self.next_token@,
                self.stack@.len() == n ==> phase_of(self.history@, pre.top_token()) is Active,
                forall|u: nat|
                    phase_of(self.history@, u) is Active ==> self.stack@.len() == n && u
                        == pre.top_token(),
                forall|i: int|
                    0 <= i < self.stack@.len() - (if self.stack@.len() == n {
                        1int
                    } else {
                        0int
                    }) ==> phase_of(self.history@, #[trigger] self.stack@[i].token@) is Dormant,
            decreases self.stack@.len(),
        {
            let ghost m = self.stack@.len() as int;
            let ghost h0 = self.history@;
            let ghost tv = self.stack@[m - 1].token@;
            proof {
                assert(tv == pre.stack@[m - 1].token@);
                if m == n {
                    assert(phase_of(h0, tv) is Active);
                } else {
                    assert(phase_of(h0, tv) is Dormant);
                }
                lemma_legal_push(h0, LifeEvent::Exited(tv));
            }
            self.history = Ghost(h0.push(LifeEvent::Exited(tv)));
            let departed = self.stack.pop().unwrap();
            effects.push(Effect::ExitTop);
            proof {
                assert(departed.token@ == tv);
                assert(self.stack@ =~= pre.stack@.take(m - 1));
                assert(exits_top_down(pre.stack@).take(n - m + 1) =~= exits_top_down(
                    pre.stack@,
                ).take(n - m).push(LifeEvent::Exited(tv)));
                assert(self.history@ =~= pre.history@ + exits_top_down(pre.stack@).take(n - m + 1));
                assert(effects@ =~= exit_top_effects::<ID>((n - m + 1) as nat));
                assert forall|i: int| 0 <= i < self.stack@.len() implies phase_of(
                    self.history@,
                    #[trigger] self.stack@[i].token@,
                ) is Dormant by {
                    let ti = self.stack@[i].token@;
                    assert(pre.stack@[i].token@ == ti);
                    assert(ti != tv);
                    lemma_phase_push(h0, LifeEvent::Exited(tv), ti);
                }
                assert forall|u: nat| !(phase_of(self.history@, u) is Active) by {
                    lemma_phase_push(h0, LifeEvent::Exited(tv), u);
                }
            }
        }
        proof {
            assert(exits_top_down(pre.stack@).take(n) =~= exits_top_down(pre.stack@));
            assert(self.history@ == pre.history@ + exits_top_down(pre.stack@));
        }
        effects
    }
}

/// After one more event on the current top, the next unused token is still
/// unborn: no event of the history mentions it.
proof fn lemma_fresh_unborn<ID>(pre: Engine<ID>, t0: nat, e: LifeEvent)
    requires
        pre.wf(),
        pre.running,
        tok(e) == t0,
        t0 == pre.top_token(),
    ensures
        phase_of(pre.history@.push(e), pre.next_token@) is Unborn,
{
    let h1 = pre.history@.push(e);
    let t1 = pre.next_token@;
    assert(t0 < t1);
    assert forall|k: int| 0 <= k < h1.len() implies tok(#[trigger] h1[k]) != t1 by {
        if k < pre.history@.len() {
            assert(h1[k] == pre.history@[k]);
        } else {
            assert(h1[k] == e);
        }
    }
    lemma_unused_unborn(h1, t1);
}

/// LAW: while the application runs -- from the end of initialization to
/// the `Exit` that stops the engine -- the screen stack is never empty.
pub proof fn lemma_running_stack_nonempty<ID>(e: Engine<ID>)
    requires
        e.wf(),
        e.running,
    ensures
        e.stack@.len() >= 1,
{
}

/// LAW: only the top screen is active. Draws, events and background
/// completions are recorded only on instances whose phase is active at
/// that moment (a legal history admits nothing else), and in a
/// well-formed engine exactly one instance can be active: the top of the
/// stack.
pub proof fn lemma_only_top_active<ID>(e: Engine<ID>, t: nat)
    requires
        e.wf(),
        phase_of(e.history@, t) is Active,
    ensures
        e.stack@.len() >= 1,
        t == e.top_token(),
{
}

/// LAW: a `Push(id)` followed by `Back` is a round trip. The stack is the
/// very sequence of instances it was before the push -- the old top is the
/// same instance, its state preserved -- and the pushed instance has been
/// entered exactly once and exited exactly once in between, around one
/// pause/resume pair on the old top.
pub proof fn lemma_push_back_round_trip<ID>(
    e0: Engine<ID>,
    e1: Engine<ID>,
    e2: Engine<ID>,
    id: ID,
    ef1: Seq<Effect<ID>>,
    ef2: Seq<Effect<ID>>,
)
    requires
        e0.wf(),
        e0.running,
        applied_push(e0, e1, id, ef1),
        applied_back(e1, e2, ef2),
    ensures
        e2.stack@ == e0.stack@,
        e2.running,
        e2.history@ == e0.history@ + seq![
            LifeEvent::Paused(e0.top_token()),
            LifeEvent::Created(e0.next_token@),
            LifeEvent::Entered(e0.next_token@),
            LifeEvent::Exited(e0.next_token@),
            LifeEvent::Resumed(e0.top_token()),
        ],
{
    let t0 = e0.top_token();
    let t1 = e0.next_token@;
    assert(e1.stack@.len() == e0.stack@.len() + 1);
    assert(e1.top_token() == t1);
    assert(e1.stack@[e1.stack@.len() - 2] == e0.stack@[e0.stack@.len() - 1]);
    assert(e2.stack@ =~= e0.stack@);
    assert(e2.history@ =~= e0.history@ + seq![
        LifeEvent::Paused(t0),
        LifeEvent::Created(t1),
        LifeEvent::Entered(t1),
        LifeEvent::Exited(t1),
        LifeEvent::Resumed(t0),
    ]);
}

} // verus!
