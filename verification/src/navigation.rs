//! Navigation between screens, exiting the application, and requesting
//! rerenders.
//!
//! Screens receive a [`Navigator`] and call its methods; each method enqueues
//! one [`Action`] on the loop's action channel. The engine consumes the
//! actions one per iteration, in queue order.

use vstd::prelude::*;

verus! {

/// One navigation request, as the loop consumes it.
///
/// Actions are produced by screens through a [`Navigator`] and applied by
/// the engine according to its transition table, strictly first-in
/// first-out: a late `Exit` does not overtake earlier actions.
#[derive(Debug, Clone, Copy, PartialEq, Eq)]
pub enum Action<ID> {
    /// Put a new screen of the kind `id` on top of the current one.
    Push(ID),
    /// Replace the current screen by a new screen of the kind `id`.
    Replace(ID),
    /// Drop the current screen and return to the one below it.
    Back,
    /// Drop every screen below the current one.
    Clear,
    /// Drop every screen and start over from the initial screen.
    Restart,
    /// Drop every screen and stop the application.
    Exit,
    /// Draw the current screen again before the next await.
    Rerender,
}

#[verifier::external_type_specification]
#[verifier::external_body]
#[verifier::reject_recursive_types(T)]
pub struct ExUnboundedSender<T>(tokio::sync::mpsc::UnboundedSender<T>);

/// Relies on tokio's `Clone` for `UnboundedSender`: the clone is another
/// sending handle on the same channel.
pub assume_specification<T>[ <tokio::sync::mpsc::UnboundedSender<T> as core::clone::Clone>::clone ](
    sender: &tokio::sync::mpsc::UnboundedSender<T>,
) -> tokio::sync::mpsc::UnboundedSender<T>;

/// Relies on tokio's `UnboundedSender::send`: it enqueues the message on the
/// unbounded channel for the single receiver, without blocking, and fails
/// only when the receiver half is gone -- the loop has already torn down --
/// which is a programming error this framework treats as fatal.
#[verifier::external_body]
fn send_action<ID>(channel: &tokio::sync::mpsc::UnboundedSender<Action<ID>>, action: Action<ID>) {
    channel.send(action).expect("the action channel was dropped while a Navigator was alive");
}

/// The handle through which screens, and tasks they spawn, request
/// navigation.
///
/// Each method enqueues one [`Action`] for the loop and returns at once; the
/// loop applies the actions in order, one per iteration. The handle owns no
/// screen state; it is cheap to clone and safe to move between tasks. Every
/// clone feeds the same queue.
#[derive(Clone)]
#[verifier::reject_recursive_types(ID)]
pub struct Navigator<ID> {
    channel: tokio::sync::mpsc::UnboundedSender<Action<ID>>,
}

impl<ID> Navigator<ID> {
    /// Wrap the sending half of the loop's action channel.
    pub fn new(channel: tokio::sync::mpsc::UnboundedSender<Action<ID>>) -> Navigator<ID> {
        Navigator { channel }
    }

    /// Enqueue [`Action::Push`]: put a new screen of the kind `id` on top.
    ///
    /// The current screen's state is preserved below; `on_pause` will run on
    /// it, `on_enter` on the new screen, and a draw follows.
    pub fn push(&self, id: ID) {
        send_action(&self.channel, Action::Push(id));
    }

    /// Enqueue [`Action::Replace`]: swap the current screen for a new screen
    /// of the kind `id`.
    ///
    /// The current screen's state is discarded; `on_exit` will run on it,
    /// `on_enter` on the new screen, and a draw follows.
    pub fn replace(&self, id: ID) {
        send_action(&self.channel, Action::Replace(id));
    }

    /// Enqueue [`Action::Back`]: drop the current screen and return to the
    /// one below it.
    ///
    /// `on_exit` will run on the current screen and `on_resume` on the one
    /// below, and a draw follows. On a stack of one screen nothing happens.
    pub fn back(&self) {
        send_action(&self.channel, Action::Back);
    }

    /// Enqueue [`Action::Clear`]: drop every screen below the current one.
    ///
    /// `on_exit` will run on each dropped screen; the current screen stays,
    /// is not re-entered, and no draw is forced.
    pub fn clear(&self) {
        send_action(&self.channel, Action::Clear);
    }

    /// Enqueue [`Action::Restart`]: drop every screen and start over from
    /// the initial screen.
    ///
    /// `on_exit` will run on each dropped screen, `on_enter` on the fresh
    /// initial screen, and a draw follows.
    pub fn restart(&self) {
        send_action(&self.channel, Action::Restart);
    }

    /// Enqueue [`Action::Exit`]: drop every screen and stop the
    /// application.
    ///
    /// `on_exit` will run on every screen alive when the action is applied;
    /// then the loop returns. Actions enqueued earlier still drain first.
    pub fn exit(&self) {
        send_action(&self.channel, Action::Exit);
    }

    /// Enqueue [`Action::Rerender`]: draw the current screen again before
    /// the next await. No lifecycle callback fires.
    pub fn rerender(&self) {
        send_action(&self.channel, Action::Rerender);
    }
}

} // verus!
