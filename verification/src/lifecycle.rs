//! The lifecycle model of screen instances.
//!
//! Every screen instance is identified by a token. The engine records each
//! callback it commands as a [`LifeEvent`] on that token, and the whole run
//! is a sequence of such events: the *history*. A history is [`legal`] when
//! every event is allowed in the phase its instance is in at that point:
//! an instance is created once, entered once, then used, paused and resumed
//! only while it lives, and exited once, terminally.
//!
//! The proof functions at the end are the lifecycle laws: they hold of every
//! legal history, and the engine keeps its history legal at all times.

use vstd::prelude::*;

verus! {

/// One recorded callback (or creation) on the screen instance with the given
/// token.
pub enum LifeEvent {
    /// The instance was constructed (by `default()` or `new(id)`).
    Created(nat),
    /// `on_enter` ran on the instance.
    Entered(nat),
    /// `on_event` ran on the instance.
    Handled(nat),
    /// The instance was drawn.
    Drew(nat),
    /// The instance's `background()` completed.
    Ticked(nat),
    /// `on_pause` ran on the instance.
    Paused(nat),
    /// `on_resume` ran on the instance.
    Resumed(nat),
    /// `on_exit` ran on the instance, which was destroyed right after.
    Exited(nat),
}

/// The phase an instance is in after a prefix of the history.
pub enum Phase {
    /// No event mentions the token yet.
    Unborn,
    /// Created, but not yet entered.
    Fresh,
    /// Entered and on top of the stack: it may be drawn, handle events,
    /// run background work, be paused, or exit.
    Active,
    /// Paused below the top: it may only be resumed or exit.
    Dormant,
    /// Exited: nothing may happen to it any more.
    Dead,
}

/// The token an event speaks of.
pub open spec fn tok(e: LifeEvent) -> nat {
    match e {
        LifeEvent::Created(t) => t,
        LifeEvent::Entered(t) => t,
        LifeEvent::Handled(t) => t,
        LifeEvent::Drew(t) => t,
        LifeEvent::Ticked(t) => t,
        LifeEvent::Paused(t) => t,
        LifeEvent::Resumed(t) => t,
        LifeEvent::Exited(t) => t,
    }
}

/// The phase an instance moves to when the event happens to it.
pub open spec fn step(p: Phase, e: LifeEvent) -> Phase {
    match e {
        LifeEvent::Created(_) => Phase::Fresh,
        LifeEvent::Entered(_) => Phase::Active,
        LifeEvent::Handled(_) => p,
        LifeEvent::Drew(_) => p,
        LifeEvent::Ticked(_) => p,
        LifeEvent::Paused(_) => Phase::Dormant,
        LifeEvent::Resumed(_) => Phase::Active,
        LifeEvent::Exited(_) => Phase::Dead,
    }
}

/// Whether the event may happen to an instance in phase `p`.
pub open spec fn allowed(p: Phase, e: LifeEvent) -> bool {
    match e {
        LifeEvent::Created(_) => p is Unborn,
        LifeEvent::Entered(_) => p is Fresh,
        LifeEvent::Handled(_) => p is Active,
        LifeEvent::Drew(_) => p is Active,
        LifeEvent::Ticked(_) => p is Active,
        LifeEvent::Paused(_) => p is Active,
        LifeEvent::Resumed(_) => p is Dormant,
        LifeEvent::Exited(_) => p is Active || p is Dormant,
    }
}

/// The phase of the instance `t` after the history `h`.
pub open spec fn phase_of(h: Seq<LifeEvent>, t: nat) -> Phase
    decreases h.len(),
{
    if h.len() == 0 {
        Phase::Unborn
    } else {
        let p = phase_of(h.drop_last(), t);
        if tok(h.last()) == t {
            step(p, h.last())
        } else {
            p
        }
    }
}

/// A history is legal when each event was allowed in the phase its instance
/// was in when it happened.
pub open spec fn legal(h: Seq<LifeEvent>) -> bool
    decreases h.len(),
{
    h.len() == 0 || (legal(h.drop_last()) && allowed(phase_of(h.drop_last(), tok(h.last())), h.last()))
}

/// How many times instance `t` was paused in `h`.
pub open spec fn pauses(h: Seq<LifeEvent>, t: nat) -> nat
    decreases h.len(),
{
    if h.len() == 0 {
        0
    } else {
        pauses(h.drop_last(), t) + if h.last() == LifeEvent::Paused(t) { 1nat } else { 0nat }
    }
}

/// How many times instance `t` was resumed in `h`.
pub open spec fn resumes(h: Seq<LifeEvent>, t: nat) -> nat
    decreases h.len(),
{
    if h.len() == 0 {
        0
    } else {
        resumes(h.drop_last(), t) + if h.last() == LifeEvent::Resumed(t) { 1nat } else { 0nat }
    }
}

/// Appending one event steps the phase of its own instance and leaves every
/// other instance's phase alone.
pub proof fn lemma_phase_push(h: Seq<LifeEvent>, e: LifeEvent, t: nat)
    ensures
        phase_of(h.push(e), t) == if tok(e) == t {
            step(phase_of(h, t), e)
        } else {
            phase_of(h, t)
        },
{
    assert(h.push(e).drop_last() =~= h);
    assert(h.push(e).last() == e);
}

/// Appending an event that is allowed in its instance's current phase keeps
/// the history legal.
pub proof fn lemma_legal_push(h: Seq<LifeEvent>, e: LifeEvent)
    requires
        legal(h),
        allowed(phase_of(h, tok(e)), e),
    ensures
        legal(h.push(e)),
{
    assert(h.push(e).drop_last() =~= h);
    assert(h.push(e).last() == e);
}

/// Every prefix of a legal history is legal.
pub proof fn lemma_legal_prefix(h: Seq<LifeEvent>, n: int)
    requires
        legal(h),
        0 <= n <= h.len(),
    ensures
        legal(h.take(n)),
    decreases h.len(),
{
    if n == h.len() {
        assert(h.take(n) =~= h);
    } else {
        assert(h.drop_last().take(n) =~= h.take(n));
        lemma_legal_prefix(h.drop_last(), n);
    }
}

/// In a legal history, each event was allowed in the phase its instance had
/// just before it.
pub proof fn lemma_legal_index(h: Seq<LifeEvent>, i: int)
    requires
        legal(h),
        0 <= i < h.len(),
    ensures
        allowed(phase_of(h.take(i), tok(h[i])), h[i]),
    decreases h.len(),
{
    if i == h.len() - 1 {
        assert(h.take(i) =~= h.drop_last());
    } else {
        assert(h.drop_last().take(i) =~= h.take(i));
        lemma_legal_index(h.drop_last(), i);
    }
}

/// An instance that no event of the history mentions is unborn.
pub proof fn lemma_unused_unborn(h: Seq<LifeEvent>, t: nat)
    requires
        forall|k: int| 0 <= k < h.len() ==> tok(#[trigger] h[k]) != t,
    ensures
        phase_of(h, t) is Unborn,
    decreases h.len(),
{
    if h.len() > 0 {
        assert(tok(h[h.len() - 1]) != t);
        assert(forall|k: int| 0 <= k < h.drop_last().len() ==> tok(#[trigger] h.drop_last()[k]) != t) by {
            assert(forall|k: int| 0 <= k < h.drop_last().len() ==> h.drop_last()[k] == #[trigger] h[k]);
        }
        lemma_unused_unborn(h.drop_last(), t);
    }
}

/// Once an instance has been entered, its phase is active, dormant or dead,
/// never fresh or unborn again.
pub proof fn lemma_entered_stays_live(h: Seq<LifeEvent>, t: nat, k: int)
    requires
        legal(h),
        0 <= k < h.len(),
        h[k] == LifeEvent::Entered(t),
    ensures
        phase_of(h, t) is Active || phase_of(h, t) is Dormant || phase_of(h, t) is Dead,
    decreases h.len(),
{
    if k == h.len() - 1 {
        assert(tok(h.last()) == t);
    } else {
        assert(h.drop_last()[k] == h[k]);
        lemma_entered_stays_live(h.drop_last(), t, k);
        let p = phase_of(h.drop_last(), t);
        if tok(h.last()) == t {
            assert(allowed(p, h.last()));
        }
    }
}

/// An instance that is active or dormant has been entered.
pub proof fn lemma_live_was_entered(h: Seq<LifeEvent>, t: nat)
    requires
        legal(h),
        phase_of(h, t) is Active || phase_of(h, t) is Dormant,
    ensures
        exists|k: int| 0 <= k < h.len() && h[k] == LifeEvent::Entered(t),
    decreases h.len(),
{
    let q = h.drop_last();
    if tok(h.last()) == t && h.last() == LifeEvent::Entered(t) {
        assert(h[h.len() - 1] == LifeEvent::Entered(t));
    } else {
        if tok(h.last()) == t {
            assert(allowed(phase_of(q, t), h.last()));
            assert(phase_of(q, t) is Active || phase_of(q, t) is Dormant) by {
                match h.last() {
                    LifeEvent::Entered(_) => {},
                    _ => {},
                }
            }
        }
        lemma_live_was_entered(q, t);
        let k = choose|k: int| 0 <= k < q.len() && q[k] == LifeEvent::Entered(t);
        assert(h[k] == q[k]);
    }
}

/// LAW: `on_enter` runs at most once on any instance. Two entries of the
/// same token in a legal history are the same entry.
pub proof fn lemma_enter_unique(h: Seq<LifeEvent>, t: nat, i: int, j: int)
    requires
        legal(h),
        0 <= i < h.len(),
        0 <= j < h.len(),
        h[i] == LifeEvent::Entered(t),
        h[j] == LifeEvent::Entered(t),
    ensures
        i == j,
{
    if i < j {
        lemma_legal_index(h, j);
        lemma_legal_prefix(h, j);
        assert(h.take(j)[i] == h[i]);
        lemma_entered_stays_live(h.take(j), t, i);
    } else if j < i {
        lemma_legal_index(h, i);
        lemma_legal_prefix(h, i);
        assert(h.take(i)[j] == h[j]);
        lemma_entered_stays_live(h.take(i), t, j);
    }
}

/// LAW: before an instance is used in any way after creation and entry --
/// drawn, handed an event, ticked, paused, resumed or exited -- it has been
/// entered, at a strictly earlier point of the history.
pub proof fn lemma_enter_before_use(h: Seq<LifeEvent>, t: nat, i: int)
    requires
        legal(h),
        0 <= i < h.len(),
        tok(h[i]) == t,
        !(h[i] is Created),
        !(h[i] is Entered),
    ensures
        exists|k: int| 0 <= k < i && h[k] == LifeEvent::Entered(t),
{
    lemma_legal_index(h, i);
    lemma_legal_prefix(h, i);
    let p = phase_of(h.take(i), t);
    assert(p is Active || p is Dormant) by {
        match h[i] {
            LifeEvent::Created(_) => {},
            LifeEvent::Entered(_) => {},
            _ => {},
        }
    }
    lemma_live_was_entered(h.take(i), t);
    let k = choose|k: int| 0 <= k < h.take(i).len() && h.take(i)[k] == LifeEvent::Entered(t);
    assert(h.take(i)[k] == h[k]);
}

/// LAW: `on_exit` is terminal. After an instance has exited, no further
/// event of the history mentions it.
pub proof fn lemma_exit_terminal(h: Seq<LifeEvent>, t: nat, i: int, j: int)
    requires
        legal(h),
        0 <= i < j < h.len(),
        h[i] == LifeEvent::Exited(t),
    ensures
        tok(h[j]) != t,
{
    assert(h.take(i + 1) =~= h.take(i).push(h[i]));
    lemma_phase_push(h.take(i), h[i], t);
    lemma_dead_persists(h, t, i + 1, j);
}

proof fn lemma_dead_persists(h: Seq<LifeEvent>, t: nat, m: int, j: int)
    requires
        legal(h),
        0 < m <= j < h.len(),
        phase_of(h.take(m), t) is Dead,
    ensures
        tok(h[j]) != t,
    decreases j - m,
{
    lemma_legal_index(h, m);
    if tok(h[m]) == t {
        assert(!allowed(phase_of(h.take(m), t), h[m]));
    }
    if m < j {
        assert(h.take(m + 1) =~= h.take(m).push(h[m]));
        lemma_phase_push(h.take(m), h[m], t);
        lemma_dead_persists(h, t, m + 1, j);
    }
}

/// LAW: `on_exit` runs at most once on any instance.
pub proof fn lemma_exit_unique(h: Seq<LifeEvent>, t: nat, i: int, j: int)
    requires
        legal(h),
        0 <= i < h.len(),
        0 <= j < h.len(),
        h[i] == LifeEvent::Exited(t),
        h[j] == LifeEvent::Exited(t),
    ensures
        i == j,
{
    if i < j {
        lemma_exit_terminal(h, t, i, j);
    } else if j < i {
        lemma_exit_terminal(h, t, j, i);
    }
}

/// The running balance of pauses over resumes matches the phase: one while
/// the instance is dormant, zero while it is active (or not yet live), and
/// one of the two once it is dead.
pub proof fn lemma_pause_resume_balance(h: Seq<LifeEvent>, t: nat)
    requires
        legal(h),
    ensures
        phase_of(h, t) is Dormant ==> pauses(h, t) == resumes(h, t) + 1,
        phase_of(h, t) is Unborn || phase_of(h, t) is Fresh || phase_of(h, t) is Active
            ==> pauses(h, t) == resumes(h, t),
        phase_of(h, t) is Dead ==> resumes(h, t) <= pauses(h, t) <= resumes(h, t) + 1,
    decreases h.len(),
{
    if h.len() > 0 {
        lemma_pause_resume_balance(h.drop_last(), t);
        if tok(h.last()) == t {
            assert(allowed(phase_of(h.drop_last(), t), h.last()));
        }
    }
}

/// LAW: pauses and resumes of any instance alternate strictly, starting
/// with a pause. In every prefix of a legal history the instance has been
/// resumed at most as often as paused, and paused at most once more than
/// resumed.
pub proof fn lemma_pauses_resumes_alternate(h: Seq<LifeEvent>, t: nat, n: int)
    requires
        legal(h),
        0 <= n <= h.len(),
    ensures
        resumes(h.take(n), t) <= pauses(h.take(n), t) <= resumes(h.take(n), t) + 1,
{
    lemma_legal_prefix(h, n);
    lemma_pause_resume_balance(h.take(n), t);
}

} // verus!
