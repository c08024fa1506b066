//! The compositor's globals as the renderer knows them: which were announced, which of them
//! it bound, and which of them are outputs.
//!
//! The registry is a list of announcements in the order they came, at most one per numeric
//! name. It grows and shrinks with the compositor's announcements and withdrawals.

use vstd::prelude::*;
use crate::error::{Capability, RenderError};
use crate::keyed::{distinct, find, known, lemma_position, position, Keyed};
use crate::protocol::Interface;

verus! {

/// One announced global.
#[derive(Clone, Copy, Debug, PartialEq, Eq, Structural)]
pub struct Global {
    /// The numeric name the compositor gave the global.
    pub name: u32,
    pub interface: Interface,
    /// The version the compositor advertised, which is the version the global is bound at.
    pub version: u32,
    /// Whether the renderer bound the global.
    pub bound: bool,
    /// For an output: the width in pixels it reported, 0 until it did.
    pub width: u32,
    /// For an output: the height in pixels it reported, 0 until it did.
    pub height: u32,
}

impl Keyed for Global {
    open spec fn key_of(&self) -> u32 {
        self.name
    }

    fn key(&self) -> (k: u32) {
        self.name
    }
}

/// One display as the renderer sees it.
#[derive(Clone, Copy, Debug, PartialEq, Eq, Structural)]
pub struct OutputDescriptor {
    /// The numeric name of the output's global.
    pub id: u32,
    pub width: u32,
    pub height: u32,
}

/// The entry that an announcement adds: wanted globals are bound, outputs have no size yet.
pub open spec fn entry(name: u32, interface: Interface, version: u32) -> Global {
    Global { name, interface, version, bound: interface.wanted(), width: 0, height: 0 }
}

/// The globals after an announcement. A name that is already known keeps its entry.
pub open spec fn announced(globals: Seq<Global>, name: u32, interface: Interface, version: u32) -> Seq<
    Global,
> {
    if position(globals, name) is Some {
        globals
    } else {
        globals.push(entry(name, interface, version))
    }
}

/// The globals after the withdrawal of `name`.
pub open spec fn withdrawn(globals: Seq<Global>, name: u32) -> Seq<Global> {
    match position(globals, name) {
        Some(i) => globals.remove(i),
        None => globals,
    }
}

/// The globals after the output `output` reported its size. Names that are not outputs are
/// not touched.
pub open spec fn with_mode(globals: Seq<Global>, output: u32, width: u32, height: u32) -> Seq<
    Global,
> {
    match position(globals, output) {
        Some(i) => if globals[i].interface is Output {
            globals.update(i, Global { width, height, ..globals[i] })
        } else {
            globals
        },
        None => globals,
    }
}

/// Whether `output` is the name of an announced output.
pub open spec fn is_output(globals: Seq<Global>, output: u32) -> bool {
    exists|i: int|
        0 <= i < globals.len() && (#[trigger] globals[i]).name == output
            && globals[i].interface is Output
}

/// The size that the output `output` reported; 0 by 0 if it reported none or is no output.
pub open spec fn natural_size(globals: Seq<Global>, output: u32) -> (u32, u32) {
    match position(globals, output) {
        Some(i) => if globals[i].interface is Output {
            (globals[i].width, globals[i].height)
        } else {
            (0u32, 0u32)
        },
        None => (0u32, 0u32),
    }
}

/// Whether a bound global provides `capability`.
pub open spec fn provides(globals: Seq<Global>, capability: Capability) -> bool {
    exists|i: int|
        0 <= i < globals.len() && (#[trigger] globals[i]).bound && globals[i].interface
            == Interface::providing(capability)
}

/// The first required capability that no bound global provides, in the order compositor,
/// shared memory, layer shell.
pub open spec fn first_missing(globals: Seq<Global>) -> Option<Capability> {
    if !provides(globals, Capability::Compositor) {
        Some(Capability::Compositor)
    } else if !provides(globals, Capability::SharedMemory) {
        Some(Capability::SharedMemory)
    } else if !provides(globals, Capability::LayerShell) {
        Some(Capability::LayerShell)
    } else {
        None
    }
}

/// Whether all three required capabilities are bound.
pub open spec fn ready(globals: Seq<Global>) -> bool {
    &&& provides(globals, Capability::Compositor)
    &&& provides(globals, Capability::SharedMemory)
    &&& provides(globals, Capability::LayerShell)
}

/// Whether the renderer can work with what was announced: it can if all three required
/// capabilities are bound, and otherwise the first missing one is the error.
pub open spec fn resolution(globals: Seq<Global>) -> Result<(), RenderError> {
    match first_missing(globals) {
        Some(capability) => Err(RenderError::MissingCapability(capability)),
        None => Ok(()),
    }
}

/// The announced outputs, in the order of their announcement.
pub open spec fn outputs_of(globals: Seq<Global>) -> Seq<OutputDescriptor>
    decreases globals.len(),
{
    if globals.len() == 0 {
        Seq::<OutputDescriptor>::empty()
    } else {
        let last = globals.last();
        let before = outputs_of(globals.drop_last());
        if last.interface is Output {
            before.push(OutputDescriptor { id: last.name, width: last.width, height: last.height })
        } else {
            before
        }
    }
}

/// No two descriptors name the same output.
pub open spec fn distinct_ids(outputs: Seq<OutputDescriptor>) -> bool {
    forall|a: int, b: int|
        0 <= a < b < outputs.len() ==> (#[trigger] outputs[a]).id != (#[trigger] outputs[b]).id
}

/// The list of outputs holds exactly the announced outputs, each of them once where the
/// globals' names are distinct.
pub proof fn lemma_outputs_of(globals: Seq<Global>)
    ensures
        outputs_of(globals).len() <= globals.len(),
        forall|k: int|
            0 <= k < outputs_of(globals).len() ==> is_output(
                globals,
                (#[trigger] outputs_of(globals)[k]).id,
            ),
        forall|name: u32|
            is_output(globals, name) ==> exists|k: int|
                0 <= k < outputs_of(globals).len() && (#[trigger] outputs_of(globals)[k]).id
                    == name,
        distinct(globals) ==> distinct_ids(outputs_of(globals)),
    decreases globals.len(),
{
    if globals.len() > 0 {
        let rest = globals.drop_last();
        let last = globals.last();
        let listed = outputs_of(globals);
        let before = outputs_of(rest);
        lemma_outputs_of(rest);
        assert forall|k: int| 0 <= k < listed.len() implies is_output(
            globals,
            (#[trigger] listed[k]).id,
        ) by {
            if k < before.len() {
                assert(listed[k] == before[k]);
                assert(is_output(rest, before[k].id));
                let i = choose|i: int|
                    0 <= i < rest.len() && (#[trigger] rest[i]).name == before[k].id
                        && rest[i].interface is Output;
                assert(globals[i] == rest[i]);
            } else {
                assert(globals[globals.len() - 1] == last);
            }
        }
        assert forall|name: u32| is_output(globals, name) implies exists|k: int|
            0 <= k < listed.len() && (#[trigger] listed[k]).id == name by {
            let i = choose|i: int|
                0 <= i < globals.len() && (#[trigger] globals[i]).name == name
                    && globals[i].interface is Output;
            if i < rest.len() {
                assert(rest[i] == globals[i]);
                assert(is_output(rest, name));
                let k = choose|k: int| 0 <= k < before.len() && (#[trigger] before[k]).id == name;
                assert(listed[k] == before[k]);
            } else {
                assert(listed[listed.len() - 1].id == name);
            }
        }
        if distinct(globals) {
            assert(distinct(rest)) by {
                assert forall|i: int, j: int| 0 <= i < j < rest.len() implies (#[trigger] rest[i]).key_of()
                    != (#[trigger] rest[j]).key_of() by {
                    assert(globals[i].key_of() != globals[j].key_of());
                }
            }
            assert forall|a: int, b: int| 0 <= a < b < listed.len() implies (#[trigger] listed[a]).id
                != (#[trigger] listed[b]).id by {
                if b < before.len() {
                    assert(before[a].id != before[b].id);
                } else {
                    assert(listed[a] == before[a]);
                    assert(is_output(rest, before[a].id));
                    let i = choose|i: int|
                        0 <= i < rest.len() && (#[trigger] rest[i]).name == before[a].id
                            && rest[i].interface is Output;
                    assert(globals[i].key_of() != globals[globals.len() - 1].key_of());
                }
            }
        }
    }
}

/// The globals that the renderer knows of.
pub struct Registry {
    pub globals: Vec<Global>,
}

impl View for Registry {
    type V = Seq<Global>;

    open spec fn view(&self) -> Seq<Global> {
        self.globals@
    }
}

impl Registry {
    /// A registry to which nothing was announced yet.
    pub fn new() -> (registry: Registry)
        ensures
            registry@ == Seq::<Global>::empty(),
    {
        Registry { globals: Vec::new() }
    }

    /// Records the announcement of a global and says whether it is to be bound: it is if it
    /// is one of the required capabilities or an output, and its name is new.
    pub fn announce(&mut self, name: u32, interface: Interface, version: u32) -> (bind: bool)
        ensures
            final(self)@ == announced(old(self)@, name, interface, version),
            bind == (interface.wanted() && !known(old(self)@, name)),
    {
        proof {
            lemma_position(self@, name);
        }
        if find(&self.globals, name).is_some() {
            return false;
        }
        let bound = interface.is_wanted();
        self.globals.push(Global { name, interface, version, bound, width: 0, height: 0 });
        bound
    }

    /// Forgets the global `name` and returns what was known of it.
    pub fn withdraw(&mut self, name: u32) -> (gone: Option<Global>)
        ensures
            final(self)@ == withdrawn(old(self)@, name),
            gone == match position(old(self)@, name) {
                Some(i) => Some(old(self)@[i]),
                None => None,
            },
    {
        match find(&self.globals, name) {
            Some(i) => {
                proof {
                    lemma_position(self@, name);
                }
                Some(self.globals.remove(i))
            },
            None => None,
        }
    }

    /// Records the size that the output `output` reported.
    pub fn set_mode(&mut self, output: u32, width: u32, height: u32)
        ensures
            final(self)@ == with_mode(old(self)@, output, width, height),
    {
        match find(&self.globals, output) {
            Some(i) => {
                proof {
                    lemma_position(self@, output);
                }
                let known = self.globals[i];
                match known.interface {
                    Interface::Output => {
                        self.globals[i] = Global {
                            name: known.name,
                            interface: known.interface,
                            version: known.version,
                            bound: known.bound,
                            width,
                            height,
                        };
                    },
                    _ => {},
                }
            },
            None => {},
        }
    }

    /// The size that the output `output` reported; 0 by 0 if it reported none or is no
    /// output.
    pub fn natural_size(&self, output: u32) -> (size: (u32, u32))
        ensures
            size == natural_size(self@, output),
    {
        match find(&self.globals, output) {
            Some(i) => {
                proof {
                    lemma_position(self@, output);
                }
                let known = self.globals[i];
                match known.interface {
                    Interface::Output => (known.width, known.height),
                    _ => (0, 0),
                }
            },
            None => (0, 0),
        }
    }

    /// Whether a bound global provides `capability`.
    pub fn provides(&self, capability: Capability) -> (found: bool)
        ensures
            found == provides(self@, capability),
    {
        let mut i: usize = 0;
        while i < self.globals.len()
            invariant
                i <= self.globals.len(),
                forall|j: int|
                    0 <= j < i ==> !((#[trigger] self@[j]).bound && self@[j].interface
                        == Interface::providing(capability)),
            decreases self.globals.len() - i,
        {
            let global = self.globals[i];
            if global.bound && global.interface.capability() == Some(capability) {
                return true;
            }
            i += 1;
        }
        false
    }

    /// The first required capability that is not bound, if one is missing.
    pub fn missing(&self) -> (capability: Option<Capability>)
        ensures
            capability == first_missing(self@),
    {
        if !self.provides(Capability::Compositor) {
            Some(Capability::Compositor)
        } else if !self.provides(Capability::SharedMemory) {
            Some(Capability::SharedMemory)
        } else if !self.provides(Capability::LayerShell) {
            Some(Capability::LayerShell)
        } else {
            None
        }
    }

    /// Whether the surface factory, the shared-memory factory and the layer shell are all
    /// bound.
    pub fn required_globals_ready(&self) -> (all: bool)
        ensures
            all == ready(self@),
    {
        self.missing().is_none()
    }

    /// Settles whether the renderer can work with what was announced: it can if nothing it
    /// requires is missing, and otherwise the first missing capability is the error.
    pub fn resolve(&self) -> (r: Result<(), RenderError>)
        ensures
            r == resolution(self@),
            r is Ok <==> ready(self@),
    {
        match self.missing() {
            Some(capability) => Err(RenderError::MissingCapability(capability)),
            None => Ok(()),
        }
    }

    /// The outputs that are announced right now, in the order of their announcement.
    pub fn current_outputs(&self) -> (outputs: Vec<OutputDescriptor>)
        ensures
            outputs@ == outputs_of(self@),
    {
        let mut outputs: Vec<OutputDescriptor> = Vec::new();
        let mut i: usize = 0;
        while i < self.globals.len()
            invariant
                i <= self.globals.len(),
                outputs@ == outputs_of(self@.take(i as int)),
            decreases self.globals.len() - i,
        {
            let global = self.globals[i];
            proof {
                assert(self@.take(i + 1).drop_last() =~= self@.take(i as int));
            }
            match global.interface {
                Interface::Output => {
                    outputs.push(
                        OutputDescriptor {
                            id: global.name,
                            width: global.width,
                            height: global.height,
                        },
                    );
                },
                _ => {},
            }
            i += 1;
        }
        proof {
            assert(self@.take(i as int) =~= self@);
        }
        outputs
    }
}

} // verus!
