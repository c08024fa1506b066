//! The lifecycle of the renderer: it listens to what the compositor announces, settles
//! whether it can work at all, keeps one layer surface per output, and hands every event to
//! the surface it is about.
//!
//! The driver never talks to the compositor. It is told what happened and answers with what
//! to do; running the session and carrying out the answers is the caller's part.

use vstd::prelude::*;
use crate::error::RenderError;
use crate::keyed::{
    distinct,
    find,
    known,
    lemma_distinct_push,
    lemma_distinct_remove,
    lemma_distinct_update,
    lemma_position,
    lemma_position_distinct,
    position,
    Keyed,
};
use crate::protocol::{Action, Event, Interface};
use crate::registry::{
    announced,
    entry,
    first_missing,
    is_output,
    lemma_outputs_of,
    natural_size,
    outputs_of,
    ready,
    with_mode,
    withdrawn,
    Global,
    OutputDescriptor,
    Registry,
};
use crate::surface::{
    lemma_paint_only_before_commit,
    lemma_step_keeps_well_formed,
    paints,
    LayerSurface,
};

verus! {

/// Where the renderer stands in its life.
#[derive(Clone, Copy, Debug, PartialEq, Eq, Structural)]
pub enum Phase {
    /// The compositor is still announcing what it has; no surface exists.
    Resolving,
    /// Everything required is bound; outputs come and go.
    Running,
    /// The renderer gave up and answers nothing any more.
    Stopped,
}

/// All the driver knows, as plain mathematics.
pub struct DriverState {
    /// The announced globals, in the order of their announcement.
    pub globals: Seq<Global>,
    /// The live surfaces, in the order of their creation.
    pub surfaces: Seq<LayerSurface>,
    pub phase: Phase,
}

/// The surface of `output` right after it was asked for, with its layer role requested.
pub open spec fn launched(output: u32) -> LayerSurface {
    LayerSurface::fresh(output).after_bind().after_layer_request()
}

/// The requests that start the pipeline of `output`: create the surface, ask for the
/// wallpaper role, commit.
pub open spec fn launch_actions(output: u32) -> Seq<Action> {
    LayerSurface::fresh(output).bind_actions() + LayerSurface::fresh(
        output,
    ).after_bind().layer_request_actions()
}

/// The surfaces of `outputs` right after they were asked for.
pub open spec fn launched_all(outputs: Seq<OutputDescriptor>) -> Seq<LayerSurface>
    decreases outputs.len(),
{
    if outputs.len() == 0 {
        Seq::<LayerSurface>::empty()
    } else {
        launched_all(outputs.drop_last()).push(launched(outputs.last().id))
    }
}

/// The requests that start the pipelines of `outputs`, one output after the other.
pub open spec fn launch_all_actions(outputs: Seq<OutputDescriptor>) -> Seq<Action>
    decreases outputs.len(),
{
    if outputs.len() == 0 {
        Seq::<Action>::empty()
    } else {
        launch_all_actions(outputs.drop_last()) + launch_actions(outputs.last().id)
    }
}

/// Starting the pipelines of a single output is starting that output's pipeline.
proof fn lemma_launch_one(output: OutputDescriptor)
    ensures
        launched_all(seq![output]) == seq![launched(output.id)],
        launch_all_actions(seq![output]) == launch_actions(output.id),
{
    let one = seq![output];
    assert(one.drop_last() =~= Seq::<OutputDescriptor>::empty());
    assert(launched_all(one.drop_last()) =~= Seq::<LayerSurface>::empty());
    assert(launch_all_actions(one.drop_last()) =~= Seq::<Action>::empty());
    assert(launched_all(one) =~= seq![launched(output.id)]);
    assert(launch_all_actions(one) =~= launch_actions(output.id));
}

impl DriverState {
    /// The state of a renderer that has heard nothing yet.
    pub open spec fn initial() -> DriverState {
        DriverState {
            globals: Seq::<Global>::empty(),
            surfaces: Seq::<LayerSurface>::empty(),
            phase: Phase::Resolving,
        }
    }

    /// The globals after `event`.
    pub open spec fn globals_after(self, event: Event) -> Seq<Global> {
        match event {
            Event::GlobalAnnounced { name, interface, version } => announced(
                self.globals,
                name,
                interface,
                version,
            ),
            Event::GlobalRemoved { name } => withdrawn(self.globals, name),
            Event::OutputMode { output, width, height } => with_mode(
                self.globals,
                output,
                width,
                height,
            ),
            _ => self.globals,
        }
    }

    /// The bind request that answers the announcement of a global that is wanted and new.
    pub open spec fn bind_actions(self, event: Event) -> Seq<Action> {
        match event {
            Event::GlobalAnnounced { name, interface, version } => if interface.wanted()
                && position(self.globals, name) is None {
                seq![Action::Bind { name, interface, version }]
            } else {
                Seq::<Action>::empty()
            },
            _ => Seq::<Action>::empty(),
        }
    }

    /// Where the surface stands that `event` is about, if there is one.
    pub open spec fn addressed(self, event: Event) -> Option<int> {
        match event.subject() {
            Some(output) => position(self.surfaces, output),
            None => None,
        }
    }

    /// The surface that `event` is about, after the event.
    pub open spec fn moved(self, event: Event, i: int) -> LayerSurface {
        let size = natural_size(self.globals, self.surfaces[i].output);
        self.surfaces[i].after(event, size.0, size.1)
    }

    /// The surfaces after the one that `event` is about has taken its step. A surface that
    /// did not survive the step is dropped from the list.
    pub open spec fn surfaces_after(self, event: Event) -> Seq<LayerSurface> {
        match self.addressed(event) {
            Some(i) => if self.moved(event, i).live() {
                self.surfaces.update(i, self.moved(event, i))
            } else {
                self.surfaces.remove(i)
            },
            None => self.surfaces,
        }
    }

    /// The actions with which the surface that `event` is about answers.
    pub open spec fn surface_actions(self, event: Event) -> Seq<Action> {
        match self.addressed(event) {
            Some(i) => {
                let size = natural_size(self.globals, self.surfaces[i].output);
                self.surfaces[i].reaction(event, size.0, size.1)
            },
            None => Seq::<Action>::empty(),
        }
    }

    /// The request that lets go of an output once it was withdrawn and its surface is down.
    pub open spec fn farewell(self, event: Event) -> Seq<Action> {
        match event {
            Event::GlobalRemoved { name } => match position(self.globals, name) {
                Some(i) => if self.globals[i].interface is Output {
                    seq![Action::ReleaseOutput { output: name }]
                } else {
                    Seq::<Action>::empty()
                },
                None => Seq::<Action>::empty(),
            },
            _ => Seq::<Action>::empty(),
        }
    }

    /// The outputs for which `event` starts a pipeline: every announced output once the
    /// renderer has settled that it can work, and from then on each output as it is
    /// announced.
    pub open spec fn newcomers(self, event: Event) -> Seq<OutputDescriptor> {
        match event {
            Event::Synced => if self.phase is Resolving && first_missing(self.globals) is None {
                outputs_of(self.globals)
            } else {
                Seq::<OutputDescriptor>::empty()
            },
            Event::GlobalAnnounced { name, interface, version } => if self.phase is Running
                && interface is Output && position(self.globals, name) is None && position(
                self.surfaces,
                name,
            ) is None {
                seq![OutputDescriptor { id: name, width: 0, height: 0 }]
            } else {
                Seq::<OutputDescriptor>::empty()
            },
            _ => Seq::<OutputDescriptor>::empty(),
        }
    }

    /// The failure that `event` makes final, if it does: the loss of the connection, or a
    /// required capability that is still missing when the announcements are through.
    pub open spec fn failure(self, event: Event) -> Option<RenderError> {
        match event {
            Event::ConnectionLost => Some(RenderError::ConnectionLost),
            Event::Synced => if self.phase is Resolving {
                match first_missing(self.globals) {
                    Some(capability) => Some(RenderError::MissingCapability(capability)),
                    None => None,
                }
            } else {
                None
            },
            _ => None,
        }
    }

    /// The phase after `event`.
    pub open spec fn phase_after(self, event: Event) -> Phase {
        if self.failure(event) is Some {
            Phase::Stopped
        } else if event is Synced && self.phase is Resolving {
            Phase::Running
        } else {
            self.phase
        }
    }

    /// The state after `event`. A stopped renderer stays as it is.
    pub open spec fn step(self, event: Event) -> DriverState {
        if self.phase is Stopped {
            self
        } else {
            DriverState {
                globals: self.globals_after(event),
                surfaces: self.surfaces_after(event) + launched_all(self.newcomers(event)),
                phase: self.phase_after(event),
            }
        }
    }

    /// The actions that answer `event`, in the order in which they are to be carried out.
    pub open spec fn response(self, event: Event) -> Seq<Action> {
        if self.phase is Stopped {
            Seq::<Action>::empty()
        } else {
            self.bind_actions(event) + self.surface_actions(event) + self.farewell(event)
                + launch_all_actions(self.newcomers(event)) + match self.failure(event) {
                Some(error) => seq![Action::Abort { error }],
                None => Seq::<Action>::empty(),
            }
        }
    }

    /// The state after a whole run of events.
    pub open spec fn run(self, events: Seq<Event>) -> DriverState
        decreases events.len(),
    {
        if events.len() == 0 {
            self
        } else {
            self.run(events.drop_last()).step(events.last())
        }
    }
}

/// One surface is started for each output, in the outputs' order.
pub proof fn lemma_launched_all(outputs: Seq<OutputDescriptor>)
    ensures
        launched_all(outputs).len() == outputs.len(),
        forall|k: int|
            0 <= k < outputs.len() ==> (#[trigger] launched_all(outputs)[k]) == launched(
                outputs[k].id,
            ),
        !paints(launch_all_actions(outputs)),
    decreases outputs.len(),
{
    if outputs.len() > 0 {
        lemma_launched_all(outputs.drop_last());
        let before = launch_all_actions(outputs.drop_last());
        let all = launch_all_actions(outputs);
        assert forall|i: int| 0 <= i < all.len() implies !((#[trigger] all[i]) is Paint) by {
            if i < before.len() {
                assert(all[i] == before[i]);
            }
        }
    }
}

impl DriverState {
    /// What holds of every state the driver can reach: globals have distinct names, there
    /// is at most one surface per output, every surface in the list is alive, well-formed
    /// and shown on an output that is announced right now, and no surface exists before the
    /// renderer has settled that it can work.
    pub open spec fn inv(self) -> bool {
        &&& distinct(self.globals)
        &&& distinct(self.surfaces)
        &&& forall|i: int|
            0 <= i < self.surfaces.len() ==> {
                &&& (#[trigger] self.surfaces[i]).live()
                &&& self.surfaces[i].wf()
                &&& is_output(self.globals, self.surfaces[i].output)
            }
        &&& self.phase is Resolving ==> self.surfaces.len() == 0
    }

    /// The outputs that have a surface, in the surfaces' order.
    pub open spec fn shown_outputs(self) -> Seq<u32> {
        Seq::new(self.surfaces.len(), |i: int| self.surfaces[i].output)
    }
}

/// An event keeps the globals' names distinct, and keeps every announced output announced
/// unless it is the very output the event withdraws.
proof fn lemma_globals_after(state: DriverState, event: Event)
    requires
        distinct(state.globals),
    ensures
        distinct(state.globals_after(event)),
        forall|output: u32|
            is_output(state.globals, output) && event != (Event::GlobalRemoved { name: output })
                ==> is_output(state.globals_after(event), output),
        forall|k: int|
            0 <= k < state.newcomers(event).len() ==> is_output(
                state.globals_after(event),
                (#[trigger] state.newcomers(event)[k]).id,
            ),
{
    let globals = state.globals;
    let next = state.globals_after(event);
    match event {
        Event::GlobalAnnounced { name, interface, version } => {
            lemma_position(globals, name);
            if position(globals, name) is None {
                lemma_distinct_push(globals, entry(name, interface, version));
                assert(next[globals.len() as int] == entry(name, interface, version));
            }
            assert forall|output: u32| is_output(globals, output) implies is_output(
                next,
                output,
            ) by {
                let i = choose|i: int|
                    0 <= i < globals.len() && (#[trigger] globals[i]).name == output
                        && globals[i].interface is Output;
                assert(next[i] == globals[i]);
            }
        },
        Event::GlobalRemoved { name } => {
            lemma_position(globals, name);
            match position(globals, name) {
                Some(at) => {
                    lemma_distinct_remove(globals, at);
                    assert forall|output: u32|
                        is_output(globals, output) && output != name implies is_output(
                        next,
                        output,
                    ) by {
                        let i = choose|i: int|
                            0 <= i < globals.len() && (#[trigger] globals[i]).name == output
                                && globals[i].interface is Output;
                        let j = if i < at {
                            i
                        } else {
                            i - 1
                        };
                        assert(next[j] == globals[i]);
                    }
                },
                None => {},
            }
        },
        Event::OutputMode { output: subject, width, height } => {
            lemma_position(globals, subject);
            match position(globals, subject) {
                Some(at) => {
                    if globals[at].interface is Output {
                        lemma_distinct_update(
                            globals,
                            at,
                            Global { width, height, ..globals[at] },
                        );
                    }
                    assert forall|output: u32| is_output(globals, output) implies is_output(
                        next,
                        output,
                    ) by {
                        let i = choose|i: int|
                            0 <= i < globals.len() && (#[trigger] globals[i]).name == output
                                && globals[i].interface is Output;
                        assert(next[i].name == globals[i].name);
                        assert(next[i].interface == globals[i].interface);
                    }
                },
                None => {},
            }
        },
        Event::Synced => {
            lemma_outputs_of(globals);
        },
        _ => {},
    }
}

/// The step of the surface that an event is about keeps the list of surfaces in order:
/// one per output, all alive and well-formed, none on an output that had no surface before,
/// and none on an output that the event withdraws.
proof fn lemma_surfaces_after(state: DriverState, event: Event)
    requires
        state.inv(),
    ensures
        distinct(state.surfaces_after(event)),
        forall|i: int|
            0 <= i < state.surfaces_after(event).len() ==> {
                &&& (#[trigger] state.surfaces_after(event)[i]).live()
                &&& state.surfaces_after(event)[i].wf()
                &&& known(state.surfaces, state.surfaces_after(event)[i].output)
            },
        forall|name: u32|
            event == (Event::GlobalRemoved { name }) ==> !known(state.surfaces_after(event), name),
{
    let surfaces = state.surfaces;
    let next = state.surfaces_after(event);
    match state.addressed(event) {
        Some(at) => {
            let output = event.subject()->0;
            lemma_position(surfaces, output);
            let size = natural_size(state.globals, surfaces[at].output);
            let moved = state.moved(event, at);
            lemma_step_keeps_well_formed(surfaces[at], event, size.0, size.1);
            if moved.live() {
                lemma_distinct_update(surfaces, at, moved);
                assert forall|i: int| 0 <= i < next.len() implies {
                    &&& (#[trigger] next[i]).live()
                    &&& next[i].wf()
                    &&& known(surfaces, next[i].output)
                } by {
                    assert(surfaces[i].live());
                    assert(surfaces[i].key_of() == next[i].output);
                }
                assert(!(event is GlobalRemoved));
            } else {
                lemma_distinct_remove(surfaces, at);
                assert forall|i: int| 0 <= i < next.len() implies {
                    &&& (#[trigger] next[i]).live()
                    &&& next[i].wf()
                    &&& known(surfaces, next[i].output)
                } by {
                    let i0 = if i < at {
                        i
                    } else {
                        i + 1
                    };
                    assert(next[i] == surfaces[i0]);
                    assert(surfaces[i0].live());
                    assert(surfaces[i0].key_of() == next[i].output);
                }
            }
        },
        None => {
            assert forall|i: int| 0 <= i < next.len() implies {
                &&& (#[trigger] next[i]).live()
                &&& next[i].wf()
                &&& known(surfaces, next[i].output)
            } by {
                assert(surfaces[i].live());
                assert(surfaces[i].key_of() == next[i].output);
            }
            match event {
                Event::GlobalRemoved { name } => {
                    lemma_position(surfaces, name);
                },
                _ => {},
            }
        },
    }
}

/// Every event keeps the driver's invariant.
pub proof fn lemma_step_keeps_invariant(state: DriverState, event: Event)
    requires
        state.inv(),
    ensures
        state.step(event).inv(),
{
    if !(state.phase is Stopped) {
        let next = state.step(event);
        let kept = state.surfaces_after(event);
        let fresh = state.newcomers(event);
        let added = launched_all(fresh);
        lemma_globals_after(state, event);
        lemma_surfaces_after(state, event);
        lemma_launched_all(fresh);
        assert(next.surfaces.len() == kept.len() + fresh.len());
        assert forall|i: int| 0 <= i < next.surfaces.len() implies {
            &&& (#[trigger] next.surfaces[i]).live()
            &&& next.surfaces[i].wf()
            &&& is_output(next.globals, next.surfaces[i].output)
        } by {
            if i < kept.len() {
                assert(next.surfaces[i] == kept[i]);
                assert(kept[i].live());
                let output = kept[i].output;
                assert(known(state.surfaces, output));
                let j = choose|j: int|
                    0 <= j < state.surfaces.len() && (#[trigger] state.surfaces[j]).key_of()
                        == output;
                assert(state.surfaces[j].live());
                assert(is_output(state.globals, output));
                if event == (Event::GlobalRemoved { name: output }) {
                    assert(known(kept, output)) by {
                        assert(kept[i].key_of() == output);
                    }
                }
            } else {
                let k = i - kept.len();
                assert(next.surfaces[i] == added[k]);
                assert(added[k] == launched(fresh[k].id));
            }
        }
        assert(distinct(next.surfaces)) by {
            assert forall|a: int, b: int| 0 <= a < b < next.surfaces.len() implies (
            #[trigger] next.surfaces[a]).key_of() != (#[trigger] next.surfaces[b]).key_of() by {
                if b < kept.len() {
                    assert(kept[a].key_of() != kept[b].key_of());
                } else {
                    let kb = b - kept.len();
                    assert(next.surfaces[b] == added[kb]);
                    assert(added[kb] == launched(fresh[kb].id));
                    if a < kept.len() {
                        assert(next.surfaces[a] == kept[a]);
                        assert(kept[a].live());
                        assert(known(state.surfaces, kept[a].output));
                        match event {
                            Event::GlobalAnnounced { name, .. } => {
                                lemma_position(state.surfaces, name);
                            },
                            _ => {},
                        }
                    } else {
                        let ka = a - kept.len();
                        assert(next.surfaces[a] == added[ka]);
                        assert(added[ka] == launched(fresh[ka].id));
                        lemma_outputs_of(state.globals);
                        assert(fresh[ka].id != fresh[kb].id);
                    }
                }
            }
        }
    }
}

/// The invariant holds at the start, and so it holds after every run of events.
pub proof fn lemma_run_keeps_invariant(events: Seq<Event>)
    ensures
        DriverState::initial().run(events).inv(),
    decreases events.len(),
{
    if events.len() > 0 {
        lemma_run_keeps_invariant(events.drop_last());
        lemma_step_keeps_invariant(DriverState::initial().run(events.drop_last()), events.last());
    }
}

/// Distinct names that all belong to announced outputs are no more than the outputs.
proof fn lemma_outputs_cover(globals: Seq<Global>, keys: Seq<u32>)
    requires
        distinct(globals),
        keys.no_duplicates(),
        forall|k: int| 0 <= k < keys.len() ==> is_output(globals, #[trigger] keys[k]),
    ensures
        keys.len() <= outputs_of(globals).len(),
    decreases globals.len(),
{
    if globals.len() == 0 {
        if keys.len() > 0 {
            assert(is_output(globals, keys[0]));
        }
    } else {
        let rest = globals.drop_last();
        let last = globals.last();
        assert(distinct(rest)) by {
            assert forall|i: int, j: int| 0 <= i < j < rest.len() implies (#[trigger] rest[i]).key_of()
                != (#[trigger] rest[j]).key_of() by {
                assert(globals[i].key_of() != globals[j].key_of());
            }
        }
        if last.interface is Output && keys.contains(last.name) {
            let at = choose|i: int| 0 <= i < keys.len() && keys[i] == last.name;
            let others = keys.remove(at);
            assert forall|a: int, b: int| 0 <= a < others.len() && 0 <= b < others.len() && a
                != b implies others[a] != others[b] by {
                let a0 = if a < at { a } else { a + 1 };
                let b0 = if b < at { b } else { b + 1 };
                assert(keys[a0] != keys[b0]);
            }
            assert forall|k: int| 0 <= k < others.len() implies is_output(
                rest,
                #[trigger] others[k],
            ) by {
                let k0 = if k < at { k } else { k + 1 };
                assert(others[k] == keys[k0]);
                assert(keys[k0] != keys[at]);
                assert(is_output(globals, keys[k0]));
                let i = choose|i: int|
                    0 <= i < globals.len() && (#[trigger] globals[i]).name == keys[k0]
                        && globals[i].interface is Output;
                assert(i < rest.len());
                assert(rest[i] == globals[i]);
            }
            lemma_outputs_cover(rest, others);
        } else {
            assert forall|k: int| 0 <= k < keys.len() implies is_output(rest, #[trigger] keys[k]) by {
                assert(is_output(globals, keys[k]));
                let i = choose|i: int|
                    0 <= i < globals.len() && (#[trigger] globals[i]).name == keys[k]
                        && globals[i].interface is Output;
                if i == rest.len() {
                    assert(keys.contains(last.name));
                }
                assert(rest[i] == globals[i]);
            }
            lemma_outputs_cover(rest, keys);
        }
    }
}

/// In every state that keeps the invariant there are no more surfaces than announced
/// outputs.
pub proof fn lemma_surfaces_bounded_by_outputs(state: DriverState)
    requires
        state.inv(),
    ensures
        state.surfaces.len() <= outputs_of(state.globals).len(),
{
    let keys = state.shown_outputs();
    assert forall|a: int, b: int| 0 <= a < keys.len() && 0 <= b < keys.len() && a != b implies keys[a]
        != keys[b] by {
        if a < b {
            assert(state.surfaces[a].key_of() != state.surfaces[b].key_of());
        } else {
            assert(state.surfaces[b].key_of() != state.surfaces[a].key_of());
        }
    }
    assert forall|k: int| 0 <= k < keys.len() implies is_output(state.globals, #[trigger] keys[k]) by {
        assert(state.surfaces[k].live());
    }
    lemma_outputs_cover(state.globals, keys);
}

/// Whatever the compositor announces and withdraws, and in whatever order: the surfaces
/// the driver keeps are all alive, no two of them are on the same output, and they are never
/// more than the outputs that are announced at that moment.
pub proof fn lemma_surfaces_never_outnumber_outputs(events: Seq<Event>)
    ensures
        ({
            let state = DriverState::initial().run(events);
            &&& state.surfaces.len() <= outputs_of(state.globals).len()
            &&& distinct(state.surfaces)
            &&& forall|i: int| 0 <= i < state.surfaces.len() ==> (#[trigger] state.surfaces[i]).live()
        }),
{
    lemma_run_keeps_invariant(events);
    lemma_surfaces_bounded_by_outputs(DriverState::initial().run(events));
}

/// Pixels are written only for an output whose surface is alive before the event and
/// after it: the surface waited in `Configured` without a buffer, and the event takes it to
/// `Committed`. A surface that was destroyed is not in the list, so nothing is written for
/// it ever again.
pub proof fn lemma_writes_need_live_surface(state: DriverState, event: Event, k: int)
    requires
        state.inv(),
        0 <= k < state.response(event).len(),
        state.response(event)[k] is Paint,
    ensures
        ({
            let output = state.response(event)[k]->Paint_output;
            let buffer = state.response(event)[k]->Paint_buffer;
            &&& buffer.writable()
            &&& position(state.surfaces, output) matches Some(i)
            &&& state.surfaces[i].state is Configured
            &&& state.surfaces[i].buffer is None
            &&& position(state.step(event).surfaces, output) == Some(i)
            &&& state.step(event).surfaces[i].state is Committed
            &&& buffer.width == state.step(event).surfaces[i].width
            &&& buffer.height == state.step(event).surfaces[i].height
        }),
{
    let response = state.response(event);
    let fresh = state.newcomers(event);
    lemma_launched_all(fresh);
    let head = state.bind_actions(event);
    let answer = state.surface_actions(event);
    let farewell = state.farewell(event);
    let launches = launch_all_actions(fresh);
    assert(k >= head.len());
    let k1 = k - head.len();
    if k1 >= answer.len() {
        let k2 = k1 - answer.len();
        if k2 >= farewell.len() {
            let k3 = k2 - farewell.len();
            if k3 < launches.len() {
                assert(response[k] == launches[k3]);
            }
        }
        assert(false);
    }
    assert(response[k] == answer[k1]);
    let at = state.addressed(event)->0;
    let output = event.subject()->0;
    lemma_position(state.surfaces, output);
    let surface = state.surfaces[at];
    let size = natural_size(state.globals, surface.output);
    assert(paints(surface.reaction(event, size.0, size.1)));
    lemma_paint_only_before_commit(surface, event, size.0, size.1);
    lemma_step_keeps_invariant(state, event);
    let next = state.step(event);
    assert(surface.live());
    assert(next.surfaces[at] == state.moved(event, at));
    lemma_position_distinct(next.surfaces, at);
}

/// An event touches at most the surface of the output it is about: every other surface is
/// in the list afterwards exactly as it was, whatever became of the one.
pub proof fn lemma_other_outputs_unaffected(state: DriverState, event: Event, i: int)
    requires
        !(state.phase is Stopped),
        0 <= i < state.surfaces.len(),
        event.subject() != Some(state.surfaces[i].output),
    ensures
        exists|j: int|
            0 <= j < state.step(event).surfaces.len() && (#[trigger] state.step(event).surfaces[j])
                == state.surfaces[i],
{
    let kept = state.surfaces_after(event);
    let next = state.step(event).surfaces;
    match state.addressed(event) {
        Some(at) => {
            lemma_position(state.surfaces, event.subject()->0);
            let j = if state.moved(event, at).live() || i < at {
                i
            } else {
                i - 1
            };
            assert(kept[j] == state.surfaces[i]);
            assert(next[j] == kept[j]);
        },
        None => {
            assert(next[i] == kept[i]);
        },
    }
}

/// An output is let go only after everything on it is: the answer to the withdrawal of an
/// output is the teardown of its surface, if it has one, followed by the release of the
/// output as the very last action; afterwards the output has neither a surface nor an entry
/// among the globals.
pub proof fn lemma_output_released_last(state: DriverState, name: u32)
    requires
        state.inv(),
        !(state.phase is Stopped),
        is_output(state.globals, name),
    ensures
        ({
            let event = Event::GlobalRemoved { name };
            let teardown = match position(state.surfaces, name) {
                Some(i) => state.surfaces[i].teardown_actions(),
                None => Seq::<Action>::empty(),
            };
            &&& state.response(event) == teardown + seq![Action::ReleaseOutput { output: name }]
            &&& position(state.step(event).surfaces, name) is None
            &&& !is_output(state.step(event).globals, name)
            &&& state.step(event).surfaces.len() == state.surfaces.len() - if position(
                state.surfaces,
                name,
            ) is Some {
                1int
            } else {
                0int
            }
        }),
{
    let event = Event::GlobalRemoved { name };
    let next = state.step(event);
    lemma_position(state.globals, name);
    lemma_position(state.surfaces, name);
    lemma_surfaces_after(state, event);
    lemma_position(next.surfaces, name);
    let at = choose|i: int|
        0 <= i < state.globals.len() && (#[trigger] state.globals[i]).name == name
            && state.globals[i].interface is Output;
    lemma_position_distinct(state.globals, at);
    lemma_distinct_remove(state.globals, at);
    assert(next.surfaces =~= state.surfaces_after(event));
    assert(!is_output(next.globals, name)) by {
        if is_output(next.globals, name) {
            let j = choose|j: int|
                0 <= j < next.globals.len() && (#[trigger] next.globals[j]).name == name
                    && next.globals[j].interface is Output;
            assert(next.globals[j].key_of() == name);
        }
    }
    match position(state.surfaces, name) {
        Some(i) => {
            assert(state.surfaces[i].live());
            assert(state.response(event) =~= state.surfaces[i].teardown_actions() + seq![
                Action::ReleaseOutput { output: name },
            ]);
        },
        None => {
            assert(state.response(event) =~= seq![Action::ReleaseOutput { output: name }]);
        },
    }
}

/// A stopped renderer stays stopped: whatever arrives, nothing changes and nothing is
/// asked for.
pub proof fn lemma_stopped_is_final(state: DriverState, events: Seq<Event>)
    requires
        state.phase is Stopped,
    ensures
        state.run(events) == state,
        forall|event: Event| #[trigger] state.response(event) == Seq::<Action>::empty(),
    decreases events.len(),
{
    if events.len() > 0 {
        lemma_stopped_is_final(state, events.drop_last());
    }
}

/// The renderer's lifecycle driver.
pub struct Driver {
    pub registry: Registry,
    pub surfaces: Vec<LayerSurface>,
    pub phase: Phase,
}

impl View for Driver {
    type V = DriverState;

    open spec fn view(&self) -> DriverState {
        DriverState { globals: self.registry@, surfaces: self.surfaces@, phase: self.phase }
    }
}

impl Driver {
    /// A driver that has heard nothing yet.
    pub fn new() -> (driver: Driver)
        ensures
            driver@ == DriverState::initial(),
    {
        Driver { registry: Registry::new(), surfaces: Vec::new(), phase: Phase::Resolving }
    }

    /// Where the renderer stands in its life.
    pub fn phase(&self) -> (phase: Phase)
        ensures
            phase == self@.phase,
    {
        self.phase
    }

    /// Whether the surface factory, the shared-memory factory and the layer shell are all
    /// bound.
    pub fn required_globals_ready(&self) -> (all: bool)
        ensures
            all == ready(self@.globals),
    {
        self.registry.required_globals_ready()
    }

    /// The outputs that are announced right now, in the order of their announcement.
    pub fn current_outputs(&self) -> (outputs: Vec<OutputDescriptor>)
        ensures
            outputs@ == outputs_of(self@.globals),
    {
        self.registry.current_outputs()
    }

    /// How many surfaces are alive. In every state the driver can reach this is at most the
    /// number of announced outputs.
    pub fn active_surfaces(&self) -> (count: usize)
        ensures
            count == self@.surfaces.len(),
            self@.inv() ==> count <= outputs_of(self@.globals).len(),
    {
        proof {
            if self@.inv() {
                lemma_surfaces_bounded_by_outputs(self@);
            }
        }
        self.surfaces.len()
    }

    /// The surface of `output`, if the output has one.
    pub fn surface_of(&self, output: u32) -> (surface: Option<LayerSurface>)
        ensures
            surface == match position(self@.surfaces, output) {
                Some(i) => Some(self@.surfaces[i]),
                None => None,
            },
    {
        match find(&self.surfaces, output) {
            Some(i) => {
                proof {
                    lemma_position(self.surfaces@, output);
                }
                Some(self.surfaces[i])
            },
            None => None,
        }
    }

    /// Starts the pipeline of `output`: a new surface, taken up to the request for its
    /// layer role.
    fn launch(&mut self, output: u32, actions: &mut Vec<Action>)
        ensures
            final(self)@ == (DriverState {
                surfaces: old(self)@.surfaces.push(launched(output)),
                ..old(self)@
            }),
            final(actions)@ == old(actions)@ + launch_actions(output),
    {
        let mut surface = LayerSurface::new(output);
        let mut bind = surface.bind_surface();
        let mut role = surface.request_layer();
        self.surfaces.push(surface);
        actions.append(&mut bind);
        actions.append(&mut role);
        assert(actions@ =~= old(actions)@ + launch_actions(output));
    }

    /// Hands `event` to the surface it is about, if there is one.
    fn step_surface(&mut self, event: Event, actions: &mut Vec<Action>)
        ensures
            final(self)@ == (DriverState {
                surfaces: old(self)@.surfaces_after(event),
                ..old(self)@
            }),
            final(actions)@ == old(actions)@ + old(self)@.surface_actions(event),
    {
        let at = match event.about() {
            Some(output) => find(&self.surfaces, output),
            None => None,
        };
        match at {
            Some(i) => {
                let mut surface = self.surfaces[i];
                let size = self.registry.natural_size(surface.output);
                let mut answer = surface.handle(event, size.0, size.1);
                if surface.is_live() {
                    self.surfaces[i] = surface;
                } else {
                    self.surfaces.remove(i);
                }
                actions.append(&mut answer);
            },
            None => {
                assert(actions@ =~= old(actions)@ + old(self)@.surface_actions(event));
            },
        }
    }

    /// Takes the renderer through `event` and returns what the session has to do in answer,
    /// in order.
    ///
    /// An announcement is recorded, and bound if it is wanted; an output announced while
    /// the renderer runs gets its pipeline at once. A withdrawal takes the output's surface
    /// down before the output itself is let go. When the first announcements are through,
    /// the renderer either starts a pipeline for every output it knows or, if a required
    /// capability is missing, stops for good, as it does when the connection is lost.
    /// Everything else goes to the surface of the output it is about.
    pub fn handle(&mut self, event: Event) -> (actions: Vec<Action>)
        ensures
            final(self)@ == old(self)@.step(event),
            actions@ == old(self)@.response(event),
            old(self)@.inv() ==> final(self)@.inv(),
    {
        proof {
            if self@.inv() {
                lemma_step_keeps_invariant(self@, event);
            }
        }
        let mut actions: Vec<Action> = Vec::new();
        match self.phase {
            Phase::Stopped => {
                return actions;
            },
            _ => {},
        }
        let ghost before = self@;
        match event {
            Event::GlobalAnnounced { name, interface, version } => {
                proof {
                    lemma_position(self.registry@, name);
                    lemma_position(self.surfaces@, name);
                }
                let unseen = find(&self.surfaces, name).is_none();
                let bind = self.registry.announce(name, interface, version);
                if bind {
                    actions.push(Action::Bind { name, interface, version });
                }
                let running = match self.phase {
                    Phase::Running => true,
                    _ => false,
                };
                let output = match interface {
                    Interface::Output => true,
                    _ => false,
                };
                if bind && running && output && unseen {
                    proof {
                        lemma_launch_one(OutputDescriptor { id: name, width: 0, height: 0 });
                    }
                    self.launch(name, &mut actions);
                }
                assert(before.surfaces_after(event) == before.surfaces);
                assert(self@.surfaces =~= before.step(event).surfaces);
                assert(actions@ =~= before.response(event));
            },
            Event::Synced => {
                match self.phase {
                    Phase::Resolving => {
                        match self.registry.missing() {
                            Some(capability) => {
                                self.phase = Phase::Stopped;
                                actions.push(
                                    Action::Abort {
                                        error: RenderError::MissingCapability(capability),
                                    },
                                );
                            },
                            None => {
                                self.phase = Phase::Running;
                                let outputs = self.registry.current_outputs();
                                let mut i: usize = 0;
                                while i < outputs.len()
                                    invariant
                                        i <= outputs.len(),
                                        outputs@ == outputs_of(before.globals),
                                        self@.globals == before.globals,
                                        self@.phase == Phase::Running,
                                        self@.surfaces == before.surfaces + launched_all(
                                            outputs@.take(i as int),
                                        ),
                                        actions@ == launch_all_actions(outputs@.take(i as int)),
                                    decreases outputs.len() - i,
                                {
                                    proof {
                                        assert(outputs@.take(i + 1).drop_last() =~= outputs@.take(
                                            i as int,
                                        ));
                                    }
                                    self.launch(outputs[i].id, &mut actions);
                                    i += 1;
                                    assert(self@.surfaces =~= before.surfaces + launched_all(
                                        outputs@.take(i as int),
                                    ));
                                }
                                assert(outputs@.take(i as int) =~= outputs@);
                            },
                        }
                    },
                    _ => {},
                }
                assert(self@.surfaces =~= before.step(event).surfaces);
                assert(actions@ =~= before.response(event));
            },
            Event::GlobalRemoved { name } => {
                self.step_surface(event, &mut actions);
                match self.registry.withdraw(name) {
                    Some(gone) => {
                        match gone.interface {
                            Interface::Output => {
                                actions.push(Action::ReleaseOutput { output: name });
                            },
                            _ => {},
                        }
                    },
                    None => {},
                }
                assert(self@.surfaces =~= before.step(event).surfaces);
                assert(actions@ =~= before.response(event));
            },
            Event::OutputMode { output, width, height } => {
                self.step_surface(event, &mut actions);
                self.registry.set_mode(output, width, height);
                assert(self@.surfaces =~= before.step(event).surfaces);
                assert(actions@ =~= before.response(event));
            },
            Event::ConnectionLost => {
                self.phase = Phase::Stopped;
                actions.push(Action::Abort { error: RenderError::ConnectionLost });
                assert(self@.surfaces =~= before.step(event).surfaces);
                assert(actions@ =~= before.response(event));
            },
            _ => {
                self.step_surface(event, &mut actions);
                assert(self@.surfaces =~= before.step(event).surfaces);
                assert(actions@ =~= before.response(event));
            },
        }
        actions
    }
}

} // verus!
