// End-to-end runs of the engine: a small harness interprets the effect
// scripts over simulated screens, records the callback trace, and the tests
// check the traces and stacks the scenarios expect.

use ratapp::engine::{Effect, Engine, Origin};
use ratapp::navigation::{Action, Navigator};
use tokio::sync::mpsc;

#[derive(Debug, Clone, Copy, PartialEq, Eq)]
enum Id {
    Home,
    List,
    ScreenB,
    ScreenC,
}

/// One simulated screen instance: what made it, a serial number that tells
/// instances apart, and a counter standing for arbitrary screen state.
#[derive(Debug, Clone, PartialEq, Eq)]
struct Sim {
    origin: Origin<Id>,
    serial: u32,
    counter: u32,
}

/// Drives an `Engine<Id>` the way the application runner would: it keeps
/// the mirrored screen stack, performs effect scripts in order, records
/// every callback, and draws whenever the engine says a draw is owed.
struct Harness {
    engine: Engine<Id>,
    stack: Vec<Sim>,
    trace: Vec<String>,
    next_serial: u32,
}

impl Harness {
    fn start() -> Harness {
        let (engine, effects) = Engine::<Id>::init();
        let mut h = Harness { engine, stack: Vec::new(), trace: Vec::new(), next_serial: 0 };
        h.perform(effects);
        h
    }

    fn fresh(&mut self, origin: Origin<Id>) -> Sim {
        let serial = self.next_serial;
        self.next_serial += 1;
        Sim { origin, serial, counter: 0 }
    }

    fn perform(&mut self, effects: Vec<Effect<Id>>) {
        for effect in effects {
            match effect {
                Effect::PauseTop => {
                    let s = self.stack.last().unwrap();
                    self.trace.push(format!("pause:{}", s.serial));
                }
                Effect::ResumeTop => {
                    let s = self.stack.last().unwrap();
                    self.trace.push(format!("resume:{}", s.serial));
                }
                Effect::ExitTop => {
                    let s = self.stack.pop().unwrap();
                    self.trace.push(format!("exit:{}", s.serial));
                }
                Effect::ExitBelowTop => {
                    let idx = self.stack.len() - 2;
                    let s = self.stack.remove(idx);
                    self.trace.push(format!("exit:{}", s.serial));
                }
                Effect::PushInitial => {
                    let s = self.fresh(Origin::Initial);
                    self.trace.push(format!("create-initial:{}", s.serial));
                    self.trace.push(format!("enter:{}", s.serial));
                    self.stack.push(s);
                }
                Effect::PushNew(id) => {
                    let s = self.fresh(Origin::ById(id));
                    self.trace.push(format!("create:{:?}:{}", id, s.serial));
                    self.trace.push(format!("enter:{}", s.serial));
                    self.stack.push(s);
                }
            }
        }
    }

    /// Step 1 of a loop iteration: pay the owed draw, if any.
    fn draw_if_dirty(&mut self) {
        if self.engine.dirty {
            let s = self.stack.last().unwrap();
            self.trace.push(format!("draw:{}:{}", s.serial, s.counter));
            self.engine.mark_drawn();
        }
    }

    /// Feed one terminal event to the top screen; `handler` is what the
    /// screen's `on_event` does with it.
    fn feed_event(&mut self, resize: bool, handler: impl Fn(&mut Sim, &Navigator<Id>)) {
        self.draw_if_dirty();
        self.engine.note_input(resize);
        let (tx, mut rx) = mpsc::unbounded_channel();
        let nav = Navigator::new(tx);
        let top = self.stack.last_mut().unwrap();
        self.trace.push(format!("event:{}", top.serial));
        handler(top, &nav);
        drop(nav);
        while let Ok(action) = rx.try_recv() {
            self.draw_if_dirty();
            if !self.engine.running {
                panic!("action after exit");
            }
            let effects = self.engine.apply(action);
            self.perform(effects);
        }
    }

    /// Apply one action directly, as if it had just been received.
    fn act(&mut self, action: Action<Id>) {
        self.draw_if_dirty();
        let effects = self.engine.apply(action);
        self.perform(effects);
    }

    fn count(&self, prefix: &str) -> usize {
        self.trace.iter().filter(|t| t.starts_with(prefix)).count()
    }
}

// Single screen, a key, then exit: the callback trace is exactly
// default() -> on_enter -> on_event -> on_exit, and the run stops.
#[test]
fn single_screen_key_then_exit() {
    let mut h = Harness::start();
    h.feed_event(false, |_home, nav| {
        nav.exit();
    });
    assert!(!h.engine.running);
    assert!(h.stack.is_empty());
    assert_eq!(
        h.trace,
        vec![
            "create-initial:0".to_string(),
            "enter:0".to_string(),
            "draw:0:0".to_string(),
            "event:0".to_string(),
            "exit:0".to_string(),
        ]
    );
}

// Push then back preserves the state of the screen below: the counter the
// initial screen accumulated is still there when it resumes, on the same
// instance, and each of pause/enter/exit/resume fired exactly once.
#[test]
fn push_back_preserves_state() {
    let mut h = Harness::start();
    // On Up, Home increments its counter and asks for a redraw.
    let up = |home: &mut Sim, nav: &Navigator<Id>| {
        home.counter += 1;
        nav.rerender();
    };
    h.feed_event(false, up);
    h.feed_event(false, up);
    h.feed_event(false, |_home, nav| {
        nav.push(Id::List);
    });
    // The draw just before the push shows the counter at 2.
    assert!(h.trace.contains(&"draw:0:2".to_string()));
    assert_eq!(h.stack.len(), 2);
    assert_eq!(h.stack[1].origin, Origin::ById(Id::List));
    h.feed_event(false, |_list, nav| {
        nav.back();
    });
    // Back on the list: the first instance (serial 0) is on top again,
    // counter intact, and the next draw shows it.
    assert_eq!(h.stack.len(), 1);
    assert_eq!(h.stack[0].serial, 0);
    assert_eq!(h.stack[0].counter, 2);
    h.draw_if_dirty();
    assert!(h.trace.contains(&"draw:0:2".to_string()));
    assert_eq!(h.count("pause:0"), 1);
    assert_eq!(h.count("enter:1"), 1);
    assert_eq!(h.count("exit:1"), 1);
    assert_eq!(h.count("resume:0"), 1);
    let last = h.trace.iter().rposition(|t| t == "draw:0:2").unwrap();
    let first = h.trace.iter().position(|t| t == "draw:0:2").unwrap();
    assert!(first < last, "a draw with counter 2 occurred both before and after the push");
}

// Replace drops the predecessor: enter(A) -> event(A) -> exit(A) ->
// enter(B), and the stack size stays 1.
#[test]
fn replace_drops_predecessor() {
    let mut h = Harness::start();
    h.feed_event(false, |_a, nav| {
        nav.replace(Id::ScreenB);
    });
    assert_eq!(h.stack.len(), 1);
    assert_eq!(h.stack[0].origin, Origin::ById(Id::ScreenB));
    assert_eq!(
        h.trace,
        vec![
            "create-initial:0".to_string(),
            "enter:0".to_string(),
            "draw:0:0".to_string(),
            "event:0".to_string(),
            "exit:0".to_string(),
            "create:ScreenB:1".to_string(),
            "enter:1".to_string(),
        ]
    );
}

// A ticking background: each completion owes a draw, so three completions
// with no input give at least three draws of the same screen.
#[test]
fn ticking_background_redraws() {
    let mut h = Harness::start();
    h.draw_if_dirty();
    for _ in 0..3 {
        h.engine.note_background();
        h.draw_if_dirty();
    }
    assert!(h.count("draw:0") >= 3);
    assert_eq!(h.stack.len(), 1);
}

// A resize forces a redraw before the next await, whether or not the
// screen's handler asked for one.
#[test]
fn resize_forces_redraw() {
    let mut h = Harness::start();
    h.draw_if_dirty();
    let draws_before = h.count("draw:");
    h.feed_event(true, |_s, _nav| {});
    assert!(h.engine.dirty, "a draw is owed right after the resize");
    h.draw_if_dirty();
    assert_eq!(h.count("draw:"), draws_before + 1);
}

// Clear preserves the top: with B and C pushed over the initial screen,
// clear exits C's predecessors top-down (B, then the initial screen),
// leaves C on top un-re-entered, and forces no redraw.
#[test]
fn clear_preserves_top() {
    let mut h = Harness::start();
    h.act(Action::Push(Id::ScreenB));
    h.act(Action::Push(Id::ScreenC));
    h.draw_if_dirty();
    assert!(!h.engine.dirty);
    let enters_before = h.count("enter:");
    h.act(Action::Clear);
    assert_eq!(h.stack.len(), 1);
    assert_eq!(h.stack[0].origin, Origin::ById(Id::ScreenC));
    assert_eq!(h.count("exit:1"), 1, "B exited");
    assert_eq!(h.count("exit:0"), 1, "the initial screen exited");
    assert_eq!(h.count("exit:2"), 0, "C did not exit");
    assert_eq!(h.count("enter:"), enters_before, "no screen was re-entered");
    assert!(!h.engine.dirty, "clear alone forces no redraw");
    let b = h.trace.iter().position(|t| t == "exit:1").unwrap();
    let a = h.trace.iter().position(|t| t == "exit:0").unwrap();
    assert!(b < a, "popping is top-down: B before the initial screen");
}

// Back on a stack of one screen is a no-op: no callbacks, same stack, no
// draw owed.
#[test]
fn back_on_single_screen_is_noop() {
    let mut h = Harness::start();
    h.draw_if_dirty();
    let trace_before = h.trace.clone();
    h.act(Action::Back);
    assert_eq!(h.trace, trace_before);
    assert_eq!(h.stack.len(), 1);
    assert!(!h.engine.dirty);
    assert!(h.engine.running);
}

// Restart exits every screen, top first, and leaves exactly one fresh
// instance made by default() that has been entered.
#[test]
fn restart_rebuilds_initial_screen() {
    let mut h = Harness::start();
    h.act(Action::Push(Id::Home));
    h.act(Action::Push(Id::List));
    h.act(Action::Restart);
    assert_eq!(h.stack.len(), 1);
    assert_eq!(h.stack[0].origin, Origin::Initial);
    assert_eq!(h.stack[0].serial, 3, "a fresh instance, not a survivor");
    assert_eq!(h.count("exit:"), 3);
    let e2 = h.trace.iter().position(|t| t == "exit:2").unwrap();
    let e1 = h.trace.iter().position(|t| t == "exit:1").unwrap();
    let e0 = h.trace.iter().position(|t| t == "exit:0").unwrap();
    assert!(e2 < e1 && e1 < e0, "exits run top-down");
    assert_eq!(h.count("enter:3"), 1);
    assert!(h.engine.dirty, "the rebuilt screen owes a draw");
    assert!(h.engine.running);
}

// Exit ends the run and every instance alive at that moment exits, top
// first, before the run returns.
#[test]
fn exit_unwinds_whole_stack() {
    let mut h = Harness::start();
    h.act(Action::Push(Id::Home));
    h.act(Action::Push(Id::List));
    assert_eq!(h.stack.len(), 3);
    h.act(Action::Exit);
    assert!(!h.engine.running);
    assert!(h.stack.is_empty());
    assert_eq!(h.count("exit:"), 3);
    let e2 = h.trace.iter().position(|t| t == "exit:2").unwrap();
    let e1 = h.trace.iter().position(|t| t == "exit:1").unwrap();
    let e0 = h.trace.iter().position(|t| t == "exit:0").unwrap();
    assert!(e2 < e1 && e1 < e0, "exits run top-down");
}

// Rerender owes a draw and nothing else: no callback fires and the stack
// is untouched.
#[test]
fn rerender_only_sets_dirty() {
    let mut h = Harness::start();
    h.draw_if_dirty();
    let trace_before = h.trace.clone();
    let effects = h.engine.apply(Action::Rerender);
    assert!(effects.is_empty());
    assert!(h.engine.dirty);
    h.perform(effects);
    assert_eq!(h.trace, trace_before);
    assert_eq!(h.stack.len(), 1);
    // Exactly one draw pays the owed redraw.
    h.draw_if_dirty();
    assert!(!h.engine.dirty);
    assert_eq!(h.count("draw:"), 2);
}

// A long mixed run: the stack is never empty while the engine runs, the
// harness stack always mirrors the engine's, and the recorded trace obeys
// the lifecycle discipline for every instance -- entered exactly once
// before anything else, exited at most once and terminally, pauses and
// resumes alternating and starting with a pause.
#[test]
fn mixed_run_trace_obeys_lifecycle() {
    let mut h = Harness::start();
    let steps = vec![
        Action::Push(Id::Home),
        Action::Rerender,
        Action::Push(Id::List),
        Action::Back,
        Action::Replace(Id::ScreenB),
        Action::Push(Id::ScreenC),
        Action::Clear,
        Action::Restart,
        Action::Push(Id::Home),
        Action::Exit,
    ];
    for action in steps {
        h.act(action);
        assert_eq!(h.stack.len(), h.engine.stack.len(), "the stacks mirror each other");
        if h.engine.running {
            assert!(!h.stack.is_empty(), "the stack is never empty while running");
            h.draw_if_dirty();
            h.engine.note_background();
            h.draw_if_dirty();
        }
    }
    assert!(!h.engine.running);

    // Replay the trace per instance serial and check the discipline.
    let parsed: Vec<(String, u32)> = h
        .trace
        .iter()
        .map(|t| {
            let parts: Vec<&str> = t.split(':').collect();
            let serial: u32 = match parts[0] {
                "draw" => parts[1].parse().unwrap(),
                "create" => parts[2].parse().unwrap(),
                _ => parts[1].parse().unwrap(),
            };
            (parts[0].to_string(), serial)
        })
        .collect();
    let serials: Vec<u32> = (0..h.next_serial).collect();
    for serial in serials {
        let events: Vec<&str> = parsed
            .iter()
            .filter(|(_, s)| *s == serial)
            .map(|(k, _)| k.as_str())
            .collect();
        assert!(!events.is_empty());
        assert!(
            events[0] == "create" || events[0] == "create-initial",
            "instance {} starts with its creation",
            serial
        );
        assert_eq!(events[1], "enter", "instance {} is entered right after creation", serial);
        assert_eq!(events.iter().filter(|e| **e == "enter").count(), 1, "entered exactly once");
        let exits = events.iter().filter(|e| **e == "exit").count();
        assert_eq!(exits, 1, "every instance of this run exits exactly once");
        assert_eq!(*events.last().unwrap(), "exit", "nothing follows an exit");
        // Pauses and resumes alternate, starting with a pause.
        let mut balance: i32 = 0;
        for e in &events {
            if *e == "pause" {
                balance += 1;
            } else if *e == "resume" {
                balance -= 1;
            }
            assert!((0..=1).contains(&balance), "pauses and resumes alternate");
        }
    }
}

// A push on a deep stack pauses only the top screen.
#[test]
fn push_pauses_only_the_top() {
    let mut h = Harness::start();
    h.act(Action::Push(Id::Home));
    h.act(Action::Push(Id::List));
    assert_eq!(h.count("pause:0"), 1);
    assert_eq!(h.count("pause:1"), 1);
    assert_eq!(h.count("pause:2"), 0);
    assert_eq!(h.stack.len(), 3);
    assert_eq!(h.stack[2].origin, Origin::ById(Id::List));
}
