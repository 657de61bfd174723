//! The run-state machine: whose turn it is, what a tick does, and how the
//! changes that the monsters ask for are brought into the world.

use crate::player::{key_delta, player_input, Key};
use crate::visibility::Visibility;
use crate::world::{Components, PartsView, World, WorldView};
use vstd::prelude::*;

verus! {

/// Whose turn it is: the game's (`Running`) or the player's (`Paused`).
#[derive(Clone, Copy, Debug, PartialEq, Eq, Structural)]
pub enum RunState {
    Paused,
    Running,
}

/// The game: the world and whose turn it is.
pub struct State {
    pub ecs: World,
    pub run_state: RunState,
}

/// A change to the world that is asked for during a tick and carried out
/// when the tick's systems have run.
pub enum Command {
    /// Entity `entity` tries a step by `(dx, dy)`.
    Move { entity: usize, dx: i32, dy: i32 },
    /// Entity `entity` loses all its components.
    Remove { entity: usize },
    /// A new entity made of `parts` joins the world.
    Spawn { parts: Components },
}

/// A command, as contracts speak of it.
#[verifier::ext_equal]
pub enum CommandView {
    Move { entity: int, dx: int, dy: int },
    Remove { entity: int },
    Spawn { parts: PartsView },
}

impl View for Command {
    type V = CommandView;

    open spec fn view(&self) -> CommandView {
        match *self {
            Command::Move { entity, dx, dy } => CommandView::Move {
                entity: entity as int,
                dx: dx as int,
                dy: dy as int,
            },
            Command::Remove { entity } => CommandView::Remove { entity: entity as int },
            Command::Spawn { parts } => CommandView::Spawn { parts: parts@ },
        }
    }
}

/// The commands of a queue, as contracts speak of them.
pub open spec fn queue_view(queue: Seq<Command>) -> Seq<CommandView> {
    Seq::new(queue.len(), |i: int| queue[i]@)
}

impl WorldView {
    /// The world after one command. A step goes by the rule of movement,
    /// a removal that names no entity changes nothing, and a new entity
    /// whose parts do not fit the world is dropped.
    pub open spec fn applied(self, command: CommandView) -> WorldView {
        match command {
            CommandView::Move { entity, dx, dy } => self.moved(entity, dx, dy),
            CommandView::Remove { entity } => self.without_entity(entity),
            CommandView::Spawn { parts } => if parts.fits(self.width, self.height) {
                self.with_entity(parts)
            } else {
                self
            },
        }
    }

    /// The world after the first `n` commands of a queue, in order.
    pub open spec fn all_applied(self, queue: Seq<CommandView>, n: nat) -> WorldView
        decreases n,
    {
        if n == 0 {
            self
        } else {
            self.all_applied(queue, (n - 1) as nat).applied(queue[n - 1])
        }
    }

    /// The world after the player's key has been dealt with: a key that
    /// asks for a step has every entity the player steers try it, and
    /// anything else changes nothing.
    pub open spec fn after_input(self, key: Option<Key>) -> WorldView {
        match key {
            Some(k) => match key_delta(k) {
                Some((dx, dy)) => self.players_moved(dx, dy, self.count()),
                None => self,
            },
            None => self,
        }
    }

    /// The key asks for a step, and an entity the player steers can make
    /// it.
    pub open spec fn input_accepted(self, key: Option<Key>) -> bool {
        match key {
            Some(k) => match key_delta(k) {
                Some((dx, dy)) => self.a_player_can_move(dx, dy, self.count()),
                None => false,
            },
            None => false,
        }
    }
}

/// Whose turn it is after the player's key has been dealt with: the
/// game's if the player made a step, and the player's again otherwise.
pub open spec fn turn_after_input(world: WorldView, key: Option<Key>) -> RunState {
    if world.input_accepted(key) {
        RunState::Running
    } else {
        RunState::Paused
    }
}

/// `after` is what one pass of the simulation makes of `before`: the
/// visibility engine looks for every entity, the monsters' turn `ai` is
/// shown the world as it then is, and the commands that it hands back are
/// carried out in order.
pub open spec fn pass_made<F: Fn(&World) -> Vec<Command>>(
    ai: &F,
    before: WorldView,
    after: WorldView,
) -> bool {
    exists|seen: World, queue: Vec<Command>|
        {
            &&& seen.wf()
            &&& seen@ == before.all_looked(before.count())
            &&& #[trigger] call_ensures(ai, (&seen,), queue)
            &&& after == seen@.all_applied(queue_view(queue@), queue@.len())
        }
}

impl World {
    /// Carries out one command.
    pub fn apply(&mut self, command: Command)
        requires
            old(self).wf(),
        ensures
            final(self).wf(),
            final(self)@ == old(self)@.applied(command@),
            final(self).map == old(self).map,
    {
        match command {
            Command::Move { entity, dx, dy } => {
                self.try_move_entity(entity, dx, dy);
            },
            Command::Remove { entity } => {
                self.remove_entity(entity);
            },
            Command::Spawn { parts } => {
                if parts.fits(&self.map) {
                    self.create_entity(parts);
                }
            },
        }
    }

    /// Carries out the commands of a queue, first to last, and so empties
    /// it. This is the one point of a tick at which entities come, go or
    /// are moved on another's behalf.
    pub fn maintain(&mut self, queue: Vec<Command>)
        requires
            old(self).wf(),
        ensures
            final(self).wf(),
            final(self)@ == old(self)@.all_applied(queue_view(queue@), queue@.len()),
            final(self).map == old(self).map,
    {
        let ghost start = self@;
        let ghost whole = queue@;
        let ghost commands = queue_view(queue@);
        for command in it: queue
            invariant
                it.seq() == whole,
                commands == queue_view(whole),
                self.wf(),
                self.map == old(self).map,
                self@ == start.all_applied(commands, it.index() as nat),
        {
            self.apply(command);
        }
    }
}

impl State {
    /// A game about to begin: the simulation moves first.
    pub fn new(ecs: World) -> (gs: State)
        ensures
            gs.ecs == ecs,
            gs.run_state == RunState::Running,
    {
        State { ecs, run_state: RunState::Running }
    }

    /// One pass of the simulation: the visibility engine looks for every
    /// entity, then the monsters' turn `ai` is shown the world and hands
    /// back the changes it asks for, and then those changes are carried
    /// out. The monsters' turn cannot touch the world itself.
    pub fn run_systems<F: Fn(&World) -> Vec<Command>>(&mut self, ai: &F)
        requires
            old(self).ecs.wf(),
            forall|w: &World| w.wf() ==> #[trigger] call_requires(ai, (w,)),
        ensures
            final(self).ecs.wf(),
            final(self).run_state == old(self).run_state,
            final(self).ecs.map.tiles == old(self).ecs.map.tiles,
            pass_made(ai, old(self).ecs@, final(self).ecs@),
    {
        Visibility::run(&mut self.ecs);
        let ghost seen = self.ecs;
        let queue = ai(&self.ecs);
        let ghost asked = queue;
        self.ecs.maintain(queue);
        assert(call_ensures(ai, (&seen,), asked));
    }

    /// One tick of the game. On the game's turn the simulation makes one
    /// pass and the turn goes to the player. On the player's turn the key
    /// pressed, if any, is dealt with, and the turn goes to the game
    /// exactly if the player made a step.
    pub fn tick<F: Fn(&World) -> Vec<Command>>(&mut self, key: Option<Key>, ai: &F)
        requires
            old(self).ecs.wf(),
            forall|w: &World| w.wf() ==> #[trigger] call_requires(ai, (w,)),
        ensures
            final(self).ecs.wf(),
            final(self).ecs.map.tiles == old(self).ecs.map.tiles,
            old(self).run_state == RunState::Running ==> {
                &&& final(self).run_state == RunState::Paused
                &&& pass_made(ai, old(self).ecs@, final(self).ecs@)
            },
            old(self).run_state == RunState::Paused ==> {
                &&& final(self).run_state == turn_after_input(old(self).ecs@, key)
                &&& final(self).ecs@ == old(self).ecs@.after_input(key)
            },
    {
        if self.run_state == RunState::Running {
            self.run_systems(ai);
            self.run_state = RunState::Paused;
        } else {
            self.run_state = player_input(self, key);
        }
    }
}

} // verus!
