//! The game's frame driver: the world together with its systems, fed the
//! events of each frame pass by pass.
//!
//! A pass records tower feedback, lets the spawning system (when enabled),
//! the movement system (in attack mode) and the builder propose commands,
//! applies them in that order, refreshes tower targets and queues the shots
//! of ready towers, and settles the round. Passes repeat on the events the
//! previous one emitted until one emits none.

use vstd::prelude::*;
use crate::core_types::layout::TowerTarget;
use crate::core_types::messages::{Command, Event};
use crate::core_types::time::Duration;
use crate::core_types::values::{PlayMode, RoundOutcome, TileCoord, TowerId};
use crate::systems::builder::{mode_after, Builder, BuilderInput, PlacementPreview};
use crate::systems::feedback::{feedback_after, TowerFeedback};
use crate::systems::movement::Movement;
use crate::systems::rounds::{resolve_round_step, round_step, RoundEvents, RoundState};
use crate::systems::spawning::{Config as SpawningConfig, Spawning};
use crate::systems::tower_combat::TowerCombat;
use crate::systems::tower_targeting::TowerTargeting;
use crate::world::apply::{apply, apply_result, command_fits, command_fits_world};
use crate::transfer::import::{check_restoration, import_outcome, layout_import_commands, LayoutImportError};
use crate::transfer::snapshot::TowerLayoutSnapshot;
use crate::world::query;
use crate::world::state::{grid_fits, World, DEFAULT_STEP_QUANTUM_MS, INITIAL_GOLD};

verus! {

/// Seed of the spawning system's colour generator.
pub const SPAWN_RNG_SEED: u64 = 0x4d59_5df4_d0f3_3173;

/// `worlds[i + 1]` and `events[i + 1]` are what applying `commands[i]` to
/// `worlds[i]` and `events[i]` gives, each command fitting the world it meets.
pub open spec fn applied_chain(worlds: Seq<World>, events: Seq<Seq<Event>>, commands: Seq<Command>) -> bool {
    &&& worlds.len() == commands.len() + 1
    &&& events.len() == commands.len() + 1
    &&& forall|i: int|
        0 <= i < commands.len() ==> command_fits(worlds[i], #[trigger] commands[i]) && apply_result(
            worlds[i],
            worlds[i + 1],
            commands[i],
            events[i],
            events[i + 1],
        )
}

/// `w1` and `e1` are what applying `commands` in order to `w0` and `e0`
/// gives, each command fitting the world it meets.
pub open spec fn applied_in_order(w0: World, commands: Seq<Command>, w1: World, e0: Seq<Event>, e1: Seq<Event>) -> bool {
    exists|worlds: Seq<World>, events: Seq<Seq<Event>>|
        #[trigger] applied_chain(worlds, events, commands) && worlds[0] == w0 && worlds.last() == w1 && events[0]
            == e0 && events.last() == e1
}

/// Applying nothing changes nothing.
pub proof fn lemma_applied_none(w0: World, e0: Seq<Event>)
    ensures
        applied_in_order(w0, Seq::empty(), w0, e0, e0),
{
    assert(applied_chain(seq![w0], seq![e0], Seq::<Command>::empty()));
}

/// Applying one command is applying the one-command sequence.
pub proof fn lemma_applied_one(w0: World, c: Command, w1: World, e0: Seq<Event>, e1: Seq<Event>)
    requires
        command_fits(w0, c),
        apply_result(w0, w1, c, e0, e1),
    ensures
        applied_in_order(w0, seq![c], w1, e0, e1),
{
    let ws = seq![w0, w1];
    let es = seq![e0, e1];
    assert forall|i: int| 0 <= i < seq![c].len() implies command_fits(ws[i], #[trigger] seq![c][i]) && apply_result(
        ws[i],
        ws[i + 1],
        seq![c][i],
        es[i],
        es[i + 1],
    ) by {
        assert(i == 0);
    }
    assert(applied_chain(ws, es, seq![c]));
}

/// Applying `a` then `b` is applying `a + b`.
pub proof fn lemma_applied_concat(
    w0: World,
    a: Seq<Command>,
    w1: World,
    b: Seq<Command>,
    w2: World,
    e0: Seq<Event>,
    e1: Seq<Event>,
    e2: Seq<Event>,
)
    requires
        applied_in_order(w0, a, w1, e0, e1),
        applied_in_order(w1, b, w2, e1, e2),
    ensures
        applied_in_order(w0, a + b, w2, e0, e2),
{
    let (wa, ea) = choose|worlds: Seq<World>, events: Seq<Seq<Event>>|
        #[trigger] applied_chain(worlds, events, a) && worlds[0] == w0 && worlds.last() == w1 && events[0] == e0
            && events.last() == e1;
    let (wb, eb) = choose|worlds: Seq<World>, events: Seq<Seq<Event>>|
        #[trigger] applied_chain(worlds, events, b) && worlds[0] == w1 && worlds.last() == w2 && events[0] == e1
            && events.last() == e2;
    let ws = wa + wb.drop_first();
    let es = ea + eb.drop_first();
    let ab = a + b;
    let n = a.len() as int;
    assert forall|i: int| 0 <= i < ab.len() implies command_fits(ws[i], #[trigger] ab[i]) && apply_result(
        ws[i],
        ws[i + 1],
        ab[i],
        es[i],
        es[i + 1],
    ) by {
        if i < n {
            assert(ab[i] == a[i]);
            assert(ws[i] == wa[i] && es[i] == ea[i]);
            if i + 1 < wa.len() {
                assert(ws[i + 1] == wa[i + 1] && es[i + 1] == ea[i + 1]);
            }
            assert(command_fits(wa[i], a[i]) && apply_result(wa[i], wa[i + 1], a[i], ea[i], ea[i + 1]));
        } else {
            let j = i - n;
            assert(ab[i] == b[j]);
            if j == 0 {
                assert(ws[i] == wa[n] && wa[n] == wa.last());
                assert(es[i] == ea[n] && ea[n] == ea.last());
            } else {
                assert(ws[i] == wb.drop_first()[j - 1] && wb.drop_first()[j - 1] == wb[j]);
                assert(es[i] == eb.drop_first()[j - 1] && eb.drop_first()[j - 1] == eb[j]);
            }
            assert(ws[i + 1] == wb.drop_first()[j] && wb.drop_first()[j] == wb[j + 1]);
            assert(es[i + 1] == eb.drop_first()[j] && eb.drop_first()[j] == eb[j + 1]);
            assert(command_fits(wb[j], b[j]) && apply_result(wb[j], wb[j + 1], b[j], eb[j], eb[j + 1]));
        }
    }
    assert(applied_chain(ws, es, ab));
    if b.len() == 0 {
        assert(ws.last() == wa.last());
        assert(es.last() == ea.last());
    } else {
        assert(ws.last() == wb.last());
        assert(es.last() == eb.last());
    }
}

/// Whether `events` report a lost round.
pub open spec fn reports_loss(events: Seq<Event>) -> bool {
    exists|i: int| 0 <= i < events.len() && #[trigger] events[i] is RoundLost
}

/// The commands the builder proposes in `mode` (see `Builder::handle`).
pub open spec fn builder_proposal(
    mode: PlayMode,
    preview: Option<PlacementPreview>,
    input: BuilderInput,
    hovered: Option<TowerId>,
) -> Seq<Command> {
    if mode != PlayMode::Builder {
        Seq::empty()
    } else {
        (if input.confirm_action && preview is Some && preview->0.placeable {
            seq![Command::PlaceTower { kind: preview->0.kind, origin: preview->0.origin }]
        } else {
            Seq::<Command>::empty()
        }) + (if input.remove_action && input.cursor_cell is Some && hovered is Some {
            seq![Command::RemoveTower { tower: hovered->0 }]
        } else {
            Seq::<Command>::empty()
        })
    }
}

/// The command queued for a round outcome, if any.
pub open spec fn outcome_commands(outcome: Option<RoundOutcome>) -> Seq<Command> {
    match outcome {
        Some(o) => seq![Command::ResolveRound { outcome: o }],
        None => Seq::empty(),
    }
}

/// Applies `commands` in order, appending their events to `out` and the
/// commands applied to `log`; stops at the first command that does not fit
/// the world it meets and reports its position.
pub fn apply_all(world: &mut World, commands: &Vec<Command>, out: &mut Vec<Event>, log: &mut Vec<Command>) -> (r: Result<(), usize>)
    requires
        old(world).well_formed(),
    ensures
        final(world).well_formed(),
        r is Ok ==> applied_in_order(*old(world), commands@, *final(world), old(out)@, final(out)@)
            && final(log)@ == old(log)@ + commands@,
        r matches Err(k) ==> k < commands@.len(),
        r matches Err(k) ==> applied_in_order(*old(world), commands@.take(k as int), *final(world), old(out)@, final(out)@),
        r matches Err(k) ==> final(log)@ == old(log)@ + commands@.take(k as int),
        r matches Err(k) ==> !command_fits(*final(world), commands@[k as int]),
{
    let ghost w0 = *world;
    let ghost e0 = out@;
    let ghost l0 = log@;
    let mut i: usize = 0;
    let mut stopped = false;
    assert(commands@.take(0) =~= Seq::<Command>::empty());
    assert(l0 + Seq::<Command>::empty() =~= l0);
    proof {
        lemma_applied_none(w0, e0);
    }
    while i < commands.len() && !stopped
        invariant
            i <= commands@.len(),
            world.well_formed(),
            applied_in_order(w0, commands@.take(i as int), *world, e0, out@),
            log@ == l0 + commands@.take(i as int),
            stopped ==> i < commands@.len() && !command_fits(*world, commands@[i as int]),
        decreases commands@.len() - i, if stopped { 0int } else { 1int },
    {
        let c = commands[i];
        if !command_fits_world(world, &c) {
            stopped = true;
        } else {
            let ghost wb = *world;
            let ghost eb = out@;
            apply(world, c, out);
            log.push(c);
            proof {
                lemma_applied_one(wb, c, *world, eb, out@);
                lemma_applied_concat(w0, commands@.take(i as int), wb, seq![c], *world, e0, eb, out@);
                assert(commands@.take(i as int) + seq![c] =~= commands@.take(i + 1));
            }
            i = i + 1;
            assert(log@ =~= l0 + commands@.take(i as int));
        }
    }
    if stopped {
        return Err(i);
    }
    assert(commands@.take(commands@.len() as int) =~= commands@);
    Ok(())
}

/// The commands of `commands` from position `from` on.
fn events_after_commands(commands: &Vec<Command>, from: usize) -> (r: Vec<Command>)
    requires
        from <= commands@.len(),
    ensures
        r@ == commands@.subrange(from as int, commands@.len() as int),
{
    let mut out: Vec<Command> = Vec::new();
    let mut i: usize = from;
    while i < commands.len()
        invariant
            from <= i <= commands@.len(),
            out@ == commands@.subrange(from as int, i as int),
        decreases commands@.len() - i,
    {
        out.push(commands[i]);
        i = i + 1;
        assert(out@ =~= commands@.subrange(from as int, i as int));
    }
    out
}

/// Appends `commands` to `queue`.
fn append_commands(queue: &mut Vec<Command>, commands: &Vec<Command>)
    ensures
        final(queue)@ == old(queue)@ + commands@,
{
    let ghost q0 = queue@;
    let mut k: usize = 0;
    while k < commands.len()
        invariant
            k <= commands@.len(),
            queue@ == q0 + commands@.take(k as int),
        decreases commands@.len() - k,
    {
        queue.push(commands[k]);
        k = k + 1;
        assert(queue@ =~= q0 + commands@.take(k as int));
    }
    assert(commands@.take(commands@.len() as int) =~= commands@);
}

/// Whether `events` report a lost round (see [`reports_loss`]).
fn any_round_lost(events: &Vec<Event>) -> (b: bool)
    ensures
        b == reports_loss(events@),
{
    let mut i: usize = 0;
    while i < events.len()
        invariant
            i <= events@.len(),
            forall|j: int| 0 <= j < i ==> !(#[trigger] events@[j] is RoundLost),
        decreases events@.len() - i,
    {
        if let Event::RoundLost { .. } = events[i] {
            assert(events@[i as int] is RoundLost);
            return true;
        }
        i = i + 1;
    }
    false
}

/// Why a layout could not be restored into the simulation.
#[derive(Clone, Copy, Debug, PartialEq, Eq)]
pub enum RestoreError {
    /// The layout does not fit the world, or the restored towers fall short.
    Import(LayoutImportError),
    /// The world could not take this command.
    Refused(Command),
}

/// The world together with the systems that drive it.
pub struct Simulation {
    pub world: World,
    pub builder: Builder,
    pub movement: Movement,
    pub spawning: Spawning,
    pub auto_spawn_enabled: bool,
    pub round: RoundState,
    pub feedback: TowerFeedback,
    pub tower_targeting: TowerTargeting,
    pub tower_combat: TowerCombat,
    pub current_targets: Vec<TowerTarget>,
    pub queued_commands: Vec<Command>,
    pub pending_events: Vec<Event>,
}

/// `w` is a freshly created world (see `World::new`).
pub open spec fn fresh_world(w: World) -> bool {
    &&& w.well_formed()
    &&& w.cells_per_tile == 1
    &&& w.tile_grid.columns.0 == 10
    &&& w.tile_grid.rows.0 == 10
    &&& w.gold.0 == INITIAL_GOLD
    &&& w.difficulty_level == 0
    &&& w.play_mode == PlayMode::Builder
    &&& w.bugs@.len() == 0
    &&& w.towers.entries@.len() == 0
    &&& w.towers.next_tower_id.0 == 0
    &&& w.projectiles@.len() == 0
    &&& w.next_projectile_id.0 == 0
    &&& w.step_quantum.spec_nanos() == DEFAULT_STEP_QUANTUM_MS * 1_000_000
    &&& w.tick_index == 0
}

/// The commands a frame applies before its passes: the queued ones, then a
/// clock tick of `dt` unless it is zero.
pub open spec fn frame_commands(queued: Seq<Command>, dt: Duration) -> Seq<Command> {
    queued + if dt.spec_nanos() == 0 {
        Seq::<Command>::empty()
    } else {
        seq![Command::Tick { dt }]
    }
}

/// The round state of a simulation with no wave launched.
pub open spec fn quiet_round() -> RoundState {
    RoundState { awaiting_resolution: false, outcome_pending: false, wave_active: false, resolve_queued: false }
}

/// `rest` is the last `rest.len()` events of `all`.
pub open spec fn ends_with(all: Seq<Event>, rest: Seq<Event>) -> bool {
    rest.len() <= all.len() && all.subrange(all.len() - rest.len(), all.len() as int) == rest
}

/// The events of `events` from position `from` on.
fn events_from(events: &Vec<Event>, from: usize) -> (r: Vec<Event>)
    requires
        from <= events@.len(),
    ensures
        r@ == events@.subrange(from as int, events@.len() as int),
{
    let mut out: Vec<Event> = Vec::new();
    let mut i: usize = from;
    while i < events.len()
        invariant
            from <= i <= events@.len(),
            out@ == events@.subrange(from as int, i as int),
        decreases events@.len() - i,
    {
        out.push(events[i]);
        i = i + 1;
        assert(out@ =~= events@.subrange(from as int, i as int));
    }
    out
}

impl Simulation {
    /// Builds the world for a grid of `columns` by `rows` tiles of
    /// `cells_per_tile` cells, configures the bug step, and leaves the
    /// configuration's events, followed by the announcement of the play
    /// mode, pending for the first pass. The systems start idle, automatic
    /// spawning off. Refused (`None`) when the grid is too large to hold.
    pub fn new(
        columns: u32,
        rows: u32,
        tile_length_bits: u32,
        cells_per_tile: u32,
        bug_step: Duration,
        spawn_interval: Duration,
    ) -> (r: Option<Simulation>)
        ensures
            r is Some <==> grid_fits(TileCoord(columns), TileCoord(rows), cells_per_tile),
            r matches Some(s) ==> {
                &&& s.world.well_formed()
                &&& s.pending_events@.len() > 0
                &&& s.pending_events@.last() == (Event::PlayModeChanged { mode: s.world.play_mode })
                &&& exists|w0: World|
                    #![trigger fresh_world(w0)]
                    fresh_world(w0) && applied_in_order(
                        w0,
                        seq![
                            Command::ConfigureTileGrid {
                                columns: TileCoord(columns),
                                rows: TileCoord(rows),
                                tile_length_bits,
                                cells_per_tile,
                            },
                            Command::ConfigureBugStep { step_duration: bug_step },
                        ],
                        s.world,
                        Seq::empty(),
                        s.pending_events@.drop_last(),
                    )
                &&& s.queued_commands@.len() == 0
                &&& s.current_targets@.len() == 0
                &&& s.round == quiet_round()
                &&& !s.auto_spawn_enabled
                &&& s.feedback.feedback is None
                &&& s.spawning.spawn_interval == spawn_interval
                &&& s.spawning.rng_state == SPAWN_RNG_SEED
            },
    {
        let mut world = World::new();
        let ghost w0 = world;
        let configure = Command::ConfigureTileGrid {
            columns: TileCoord(columns),
            rows: TileCoord(rows),
            tile_length_bits,
            cells_per_tile,
        };
        if !command_fits_world(&world, &configure) {
            return None;
        }
        let mut pending: Vec<Event> = Vec::new();
        let mut log: Vec<Command> = Vec::new();
        let commands: Vec<Command> = vec![configure, Command::ConfigureBugStep { step_duration: bug_step }];
        let applied = apply_all(&mut world, &commands, &mut pending, &mut log);
        if let Err(k) = applied {
            proof {
                assert(k == 1 ==> command_fits(world, commands@[k as int]));
                if k == 0 {
                    assert(commands@.take(0) =~= Seq::<Command>::empty());
                    let (ws, es) = choose|ws: Seq<World>, es: Seq<Seq<Event>>|
                        #[trigger] applied_chain(ws, es, commands@.take(0)) && ws[0] == w0 && ws.last() == world
                            && es[0] == Seq::<Event>::empty() && es.last() == pending@;
                    assert(world == w0);
                }
            }
            return None;
        }
        let mode = query::play_mode(&world);
        let ghost configured = pending@;
        pending.push(Event::PlayModeChanged { mode });
        assert(pending@.drop_last() =~= configured);
        assert(fresh_world(w0));
        assert(commands@ =~= seq![configure, Command::ConfigureBugStep { step_duration: bug_step }]);
        assert(fresh_world(w0) && applied_in_order(w0, commands@, world, Seq::empty(), pending@.drop_last()));
        let spawning = Spawning::new(SpawningConfig::new(spawn_interval, SPAWN_RNG_SEED));
        Some(
            Simulation {
                world,
                builder: Builder::default(),
                movement: Movement::default(),
                spawning,
                auto_spawn_enabled: false,
                round: RoundState {
                    awaiting_resolution: false,
                    outcome_pending: false,
                    wave_active: false,
                    resolve_queued: false,
                },
                feedback: TowerFeedback::new(),
                tower_targeting: TowerTargeting::new(),
                tower_combat: TowerCombat::new(),
                current_targets: Vec::new(),
                queued_commands: Vec::new(),
                pending_events: pending,
            },
        )
    }

    /// Applies the queued commands in order, adding their events to the
    /// pending ones, and empties the queue (a queued round resolution is
    /// thereby applied). Stops at the first command the world cannot take
    /// and reports it; the commands after it stay queued.
    pub fn flush_queued_commands(&mut self) -> (r: Result<(), Command>)
        requires
            old(self).world.well_formed(),
        ensures
            final(self).world.well_formed(),
            r is Ok ==> applied_in_order(
                old(self).world,
                old(self).queued_commands@,
                final(self).world,
                old(self).pending_events@,
                final(self).pending_events@,
            ) && final(self).queued_commands@.len() == 0 && !final(self).round.resolve_queued,
            r matches Err(c) ==> !command_fits(final(self).world, c),
    {
        let mut commands: Vec<Command> = Vec::new();
        std::mem::swap(&mut commands, &mut self.queued_commands);
        let mut log: Vec<Command> = Vec::new();
        let count = commands.len();
        match apply_all(&mut self.world, &commands, &mut self.pending_events, &mut log) {
            Ok(()) => {
                self.round.resolve_queued = false;
                Ok(())
            },
            Err(k) => {
                let c = commands[k];
                let rest = events_after_commands(&commands, k + 1);
                self.queued_commands = rest;
                Err(c)
            },
        }
    }

    /// Advances one frame: drops the pending events, applies the queued
    /// commands, then a clock tick of `dt` unless it is zero, and runs the
    /// passes over the events these emitted (see
    /// [`Simulation::process_pending_events`]). Returns the number of
    /// passes, or the first command the world could not take.
    pub fn advance(
        &mut self,
        dt: Duration,
        preview: Option<PlacementPreview>,
        input: BuilderInput,
        max_passes: usize,
    ) -> (r: Result<usize, Command>)
        requires
            old(self).world.well_formed(),
        ensures
            final(self).world.well_formed(),
            r matches Err(c) ==> !command_fits(final(self).world, c),
            r matches Ok(passes) ==> {
                &&& passes <= max_passes
                &&& final(self).pending_events@.len() == 0 || passes == max_passes
                &&& exists|w1: World, e1: Seq<Event>, applied: Seq<Command>, all: Seq<Event>|
                    #![trigger applied_in_order(old(self).world, frame_commands(old(self).queued_commands@, dt), w1, Seq::empty(), e1), applied_in_order(w1, applied, final(self).world, Seq::empty(), all)]
                    applied_in_order(old(self).world, frame_commands(old(self).queued_commands@, dt), w1, Seq::empty(), e1)
                        && applied_in_order(w1, applied, final(self).world, Seq::empty(), all)
            },
    {
        self.pending_events = Vec::new();
        let ghost w0 = self.world;
        let ghost q0 = self.queued_commands@;
        if let Err(c) = self.flush_queued_commands() {
            return Err(c);
        }
        let ghost wq = self.world;
        let ghost eq = self.pending_events@;
        if !dt.is_zero() {
            let tick: Vec<Command> = vec![Command::Tick { dt }];
            let mut log: Vec<Command> = Vec::new();
            if let Err(k) = apply_all(&mut self.world, &tick, &mut self.pending_events, &mut log) {
                return Err(tick[k]);
            }
            proof {
                lemma_applied_concat(w0, q0, wq, tick@, self.world, Seq::empty(), eq, self.pending_events@);
                assert(tick@ =~= seq![Command::Tick { dt }]);
            }
        } else {
            assert(q0 + Seq::<Command>::empty() =~= q0);
        }
        let ghost w1 = self.world;
        let ghost e1 = self.pending_events@;
        assert(applied_in_order(w0, frame_commands(q0, dt), w1, Seq::empty(), e1));
        match self.process_pending_events(preview, input, max_passes) {
            Err(c) => Err(c),
            Ok((applied, passes)) => {
                proof {
                    if passes == 0 {
                        lemma_applied_none(w1, Seq::empty());
                        assert(applied@ =~= Seq::<Command>::empty());
                        assert(applied_in_order(w1, applied@, self.world, Seq::empty(), Seq::empty()));
                        assert(applied_in_order(w0, frame_commands(q0, dt), w1, Seq::empty(), e1)
                            && applied_in_order(w1, applied@, self.world, Seq::empty(), Seq::empty()));
                    } else {
                        let all = choose|all: Seq<Event>|
                            #[trigger] ends_with(all, self.pending_events@) && applied_in_order(
                                w1,
                                applied@,
                                self.world,
                                Seq::empty(),
                                all,
                            );
                        assert(applied_in_order(w0, frame_commands(q0, dt), w1, Seq::empty(), e1)
                            && applied_in_order(w1, applied@, self.world, Seq::empty(), all));
                    }
                }
                Ok(passes)
            },
        }
    }

    /// Restores `snapshot` into the world: plans its tower imports (see
    /// `layout_import_commands`; `tile_length_matches` tells whether the tile
    /// lengths agree within tolerance), queues them, drops the pending
    /// events, applies the queue, runs the passes over the events this
    /// emitted, and checks that the world then holds as many towers as the
    /// layout.
    pub fn restore_layout(
        &mut self,
        snapshot: &TowerLayoutSnapshot,
        tile_length_matches: bool,
        max_passes: usize,
    ) -> (r: Result<(), RestoreError>)
        requires
            old(self).world.well_formed(),
        ensures
            final(self).world.well_formed(),
            import_outcome(old(self).world, *snapshot, tile_length_matches) matches Err(e) ==> r == Err::<
                (),
                RestoreError,
            >(RestoreError::Import(e)) && *final(self) == *old(self),
            r matches Err(RestoreError::Refused(c)) ==> !command_fits(final(self).world, c),
            r is Ok ==> final(self).world.towers.entries@.len() == snapshot.towers@.len(),
            r is Ok ==> (import_outcome(old(self).world, *snapshot, tile_length_matches) matches Ok(plan)
                && exists|w1: World, e1: Seq<Event>, applied: Seq<Command>, all: Seq<Event>|
                #![trigger applied_in_order(old(self).world, old(self).queued_commands@ + plan, w1, Seq::empty(), e1), applied_in_order(w1, applied, final(self).world, Seq::empty(), all)]
                applied_in_order(old(self).world, old(self).queued_commands@ + plan, w1, Seq::empty(), e1)
                    && applied_in_order(w1, applied, final(self).world, Seq::empty(), all)),
    {
        let commands = match layout_import_commands(&self.world, snapshot, tile_length_matches) {
            Ok(c) => c,
            Err(e) => {
                return Err(RestoreError::Import(e));
            },
        };
        let ghost w0 = self.world;
        let ghost q0 = self.queued_commands@;
        append_commands(&mut self.queued_commands, &commands);
        self.pending_events = Vec::new();
        if let Err(c) = self.flush_queued_commands() {
            return Err(RestoreError::Refused(c));
        }
        let ghost w1 = self.world;
        let ghost e1 = self.pending_events@;
        let (applied, passes) = match self.process_pending_events(None, BuilderInput::default(), max_passes) {
            Ok(done) => done,
            Err(c) => {
                return Err(RestoreError::Refused(c));
            },
        };
        let observed = self.world.towers.entries.len();
        if let Err(e) = check_restoration(snapshot.towers.len(), observed) {
            return Err(RestoreError::Import(e));
        }
        proof {
            if passes == 0 {
                lemma_applied_none(w1, Seq::empty());
                assert(applied@ =~= Seq::<Command>::empty());
                assert(applied_in_order(w0, q0 + commands@, w1, Seq::empty(), e1) && applied_in_order(
                    w1,
                    applied@,
                    self.world,
                    Seq::empty(),
                    Seq::empty(),
                ));
            } else {
                let all = choose|all: Seq<Event>|
                    #[trigger] ends_with(all, self.pending_events@) && applied_in_order(
                        w1,
                        applied@,
                        self.world,
                        Seq::empty(),
                        all,
                    );
                assert(applied_in_order(w0, q0 + commands@, w1, Seq::empty(), e1) && applied_in_order(
                    w1,
                    applied@,
                    self.world,
                    Seq::empty(),
                    all,
                ));
            }
        }
        Ok(())
    }

    /// Runs passes over the pending events until a pass emits none, at most
    /// `max_passes` of them; the frame's `preview` and `input` reach the
    /// first pass only. Events of a pass cut off by the
    /// bound stay pending. Returns the commands applied and the number of
    /// passes, or the first command the world could not take.
    pub fn process_pending_events(
        &mut self,
        preview: Option<PlacementPreview>,
        input: BuilderInput,
        max_passes: usize,
    ) -> (r: Result<(Vec<Command>, usize), Command>)
        requires
            old(self).world.well_formed(),
        ensures
            final(self).world.well_formed(),
            r matches Err(c) ==> !command_fits(final(self).world, c),
            r matches Ok((applied, passes)) ==> {
                &&& passes <= max_passes
                &&& max_passes > 0 ==> passes > 0
                &&& final(self).pending_events@.len() == 0 || passes == max_passes
                &&& passes == 0 ==> applied@.len() == 0 && final(self).world == old(self).world
                    && final(self).pending_events@ == old(self).pending_events@
                &&& passes > 0 ==> exists|all: Seq<Event>|
                    #![trigger ends_with(all, final(self).pending_events@)]
                    applied_in_order(old(self).world, applied@, final(self).world, Seq::empty(), all) && ends_with(
                        all,
                        final(self).pending_events@,
                    )
            },
    {
        if max_passes == 0 {
            return Ok((Vec::new(), 0));
        }
        let mut events: Vec<Event> = Vec::new();
        std::mem::swap(&mut events, &mut self.pending_events);
        let mut all: Vec<Event> = Vec::new();
        let mut applied: Vec<Command> = Vec::new();
        let mut passes: usize = 0;
        let ghost w0 = self.world;
        proof {
            lemma_applied_none(w0, Seq::empty());
        }
        while passes < max_passes && (passes == 0 || events.len() > 0)
            invariant
                passes <= max_passes,
                self.world.well_formed(),
                applied_in_order(w0, applied@, self.world, Seq::empty(), all@),
                passes > 0 ==> ends_with(all@, events@),
            decreases max_passes - passes,
        {
            let (p, i) = if passes == 0 {
                (preview, input)
            } else {
                (None, BuilderInput::default())
            };
            let mark = all.len();
            let ghost wb = self.world;
            let ghost eb = all@;
            match self.process_pass(&events, p, i, &mut all) {
                Err(c) => {
                    return Err(c);
                },
                Ok(log) => {
                    proof {
                        lemma_applied_concat(w0, applied@, wb, log@, self.world, Seq::empty(), eb, all@);
                    }
                    append_commands(&mut applied, &log);
                    let from = if mark <= all.len() { mark } else { all.len() };
                    events = events_from(&all, from);
                    assert(all@.subrange(all@.len() - events@.len(), all@.len() as int) =~= events@);
                },
            }
            passes = passes + 1;
        }
        self.pending_events = events;
        assert(ends_with(all@, self.pending_events@));
        assert(applied_in_order(w0, applied@, self.world, Seq::empty(), all@) && ends_with(all@, self.pending_events@));
        Ok((applied, passes))
    }

    /// One pass over `events`: records tower feedback; applies, in order, the
    /// commands of the spawning system (when enabled), of the movement system
    /// (when the world is in attack mode) and of the builder (given the
    /// frame's `preview` and `input`, and the tower the world holds under the
    /// input's cursor cell); refreshes the tower
    /// targets and queues the shots of ready towers; settles the round,
    /// queueing its outcome. Appends the events the applied commands emitted
    /// to `emitted` and returns the commands applied, or the first command
    /// the world could not take.
    pub fn process_pass(
        &mut self,
        events: &Vec<Event>,
        preview: Option<PlacementPreview>,
        input: BuilderInput,
        emitted: &mut Vec<Event>,
    ) -> (r: Result<Vec<Command>, Command>)
        requires
            old(self).world.well_formed(),
        ensures
            final(self).world.well_formed(),
            final(self).feedback == feedback_after(old(self).feedback, events@),
            final(self).auto_spawn_enabled == old(self).auto_spawn_enabled,
            r matches Err(c) ==> !command_fits(final(self).world, c),
            r matches Ok(applied) ==> {
                &&& applied_in_order(old(self).world, applied@, final(self).world, old(emitted)@, final(emitted)@)
                &&& exists|spawned: Seq<Command>, moved: Seq<Command>, hovered: Option<TowerId>|
                    #![trigger builder_proposal(mode_after(old(self).builder.play_mode, events@), preview, input, hovered), spawned + moved]
                    {
                        &&& applied@ == spawned + moved + builder_proposal(
                            mode_after(old(self).builder.play_mode, events@),
                            preview,
                            input,
                            hovered,
                        )
                        &&& !old(self).auto_spawn_enabled ==> spawned.len() == 0
                        &&& old(self).world.play_mode != PlayMode::Attack ==> moved.len() == 0
                        &&& input.cursor_cell is None ==> hovered is None
                    }
                &&& exists|fired: Seq<Command>, re: RoundEvents|
                    #![trigger round_step(old(self).round, re), old(self).queued_commands@ + fired]
                    {
                        &&& re.round_lost == reports_loss(events@)
                        &&& !re.wave_finished
                        &&& final(self).round == round_step(old(self).round, re).0
                        &&& final(self).queued_commands@ == old(self).queued_commands@ + fired + outcome_commands(
                            round_step(old(self).round, re).1,
                        )
                        &&& old(self).world.play_mode != PlayMode::Attack ==> fired.len() == 0
                    }
            },
    {
        let ghost e0 = emitted@;
        let ghost builder_mode = self.builder.play_mode;
        let mut applied: Vec<Command> = Vec::new();
        let ghost q0 = self.queued_commands@;
        self.feedback.record_tower_feedback(events.as_slice());
        let round_lost = any_round_lost(events);
        let play_mode = query::play_mode(&self.world);

        let mut spawn_commands: Vec<Command> = Vec::new();
        if self.auto_spawn_enabled {
            let spawners = query::bug_spawners(&self.world);
            self.spawning.handle(events.as_slice(), play_mode, spawners.as_slice(), &mut spawn_commands);
        }
        let ghost w0 = self.world;
        if let Err(k) = apply_all(&mut self.world, &spawn_commands, emitted, &mut applied) {
            return Err(spawn_commands[k]);
        }
        let ghost w1 = self.world;
        let ghost e1 = emitted@;
        let bugs_after_wave = query::bug_view(&self.world).snapshots.len() > 0;

        let mut move_commands: Vec<Command> = Vec::new();
        if play_mode == PlayMode::Attack {
            let bug_view = query::bug_view(&self.world);
            let occupancy_view = query::occupancy_view(&self.world);
            let target_cells = query::target_cells(&self.world);
            let navigation_view = query::navigation_field(&self.world);
            let reservation_ledger = query::reservation_ledger(&self.world);
            let blocked = query::blocked_cells(&self.world);
            self.movement.handle(
                events.as_slice(),
                &bug_view,
                &occupancy_view,
                &navigation_view,
                &reservation_ledger,
                target_cells.as_slice(),
                blocked.as_slice(),
                &mut move_commands,
            );
        }
        if let Err(k) = apply_all(&mut self.world, &move_commands, emitted, &mut applied) {
            return Err(move_commands[k]);
        }
        let ghost w2 = self.world;
        let ghost e2 = emitted@;
        assert(applied_in_order(w1, move_commands@, w2, e1, e2));
        assert(w2.well_formed());

        let mut fire_commands: Vec<Command> = Vec::new();
        if play_mode != PlayMode::Attack {
            self.current_targets.clear();
        } else {
            let towers = query::towers(&self.world);
            let bugs = query::bug_view(&self.world);
            let cells_per_tile = query::cells_per_tile(&self.world);
            self.tower_targeting.handle(play_mode, &towers, &bugs, cells_per_tile, &mut self.current_targets);
            if self.current_targets.len() > 0 {
                let cooldowns = query::tower_cooldowns(&self.world);
                self.tower_combat.handle(play_mode, cooldowns, self.current_targets.as_slice(), &mut fire_commands);
            }
        }
        assert(self.world == w2);
        let ghost fired = fire_commands@;
        append_commands(&mut self.queued_commands, &fire_commands);

        assert(self.world == w2);
        let hovered = match input.cursor_cell {
            Some(cell) => query::tower_at(&self.world, cell),
            None => None,
        };
        let mut build_commands: Vec<Command> = Vec::new();
        self.builder.handle(events.as_slice(), preview, input, hovered, &mut build_commands);
        if let Err(k) = apply_all(&mut self.world, &build_commands, emitted, &mut applied) {
            return Err(build_commands[k]);
        }
        let bugs_at_end = query::bug_view(&self.world).snapshots.len() > 0;

        let round_events = RoundEvents { round_lost, wave_finished: false, bugs_after_wave, bugs_at_end };
        let (round, outcome) = resolve_round_step(self.round, round_events);
        self.round = round;
        let ghost q1 = self.queued_commands@;
        if let Some(o) = outcome {
            self.queued_commands.push(Command::ResolveRound { outcome: o });
        }
        proof {
            assert(self.queued_commands@ =~= q0 + fired + outcome_commands(outcome));
            assert(Seq::<Command>::empty() + spawn_commands@ =~= spawn_commands@);
            lemma_applied_concat(w0, spawn_commands@, w1, move_commands@, w2, e0, e1, e2);
            lemma_applied_concat(
                w0,
                spawn_commands@ + move_commands@,
                w2,
                build_commands@,
                self.world,
                e0,
                e2,
                emitted@,
            );
            assert(applied@ =~= spawn_commands@ + move_commands@ + build_commands@);
            assert(build_commands@ =~= builder_proposal(mode_after(builder_mode, events@), preview, input, hovered));
            assert(applied@ == spawn_commands@ + move_commands@ + builder_proposal(
                mode_after(builder_mode, events@),
                preview,
                input,
                hovered,
            ));
        }
        Ok(applied)
    }
}

} // verus!
