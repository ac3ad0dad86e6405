//! Wayland objects: their identifiers, their kinds, and who handles the events they send.

use vstd::prelude::*;

verus! {

/// The identifier of a Wayland object. Zero stands for no object, so no identifier is zero.
#[derive(Clone, Copy, PartialEq, Eq, Structural, Debug)]
pub struct ObjectId {
    id: u32,
}

impl View for ObjectId {
    type V = u32;

    closed spec fn view(&self) -> u32 {
        self.id
    }
}

/// The number that an identifier made of a number has, if one can be made of it.
pub open spec fn object_number(id: u32) -> Option<u32> {
    if id == 0 {
        None
    } else {
        Some(id)
    }
}

/// The number of an identifier that may be missing.
pub open spec fn number_of(object: Option<ObjectId>) -> Option<u32> {
    match object {
        Some(object) => Some(object@),
        None => None,
    }
}

/// An identifier can be made of every number but zero, and has that number.
pub proof fn law_all_numbers_but_zero_identify(id: u32)
    ensures
        object_number(id) is None <==> id == 0,
        object_number(id) matches Some(number) ==> number == id,
{
}

impl ObjectId {
    #[verifier::type_invariant]
    spec fn nonzero(self) -> bool {
        self.id != 0
    }

    /// The identifier with the given number, unless that number is zero.
    pub fn new(id: u32) -> (object: Option<ObjectId>)
        ensures
            object is None <==> id == 0,
            object matches Some(object) ==> object@ == id,
            number_of(object) == object_number(id),
    {
        if id == 0 {
            None
        } else {
            Some(ObjectId { id })
        }
    }

    /// The number of the identifier.
    pub fn get(&self) -> (id: u32)
        ensures
            id == self@,
            id != 0,
    {
        proof {
            use_type_invariant(self);
        }
        self.id
    }
}

/// Two identifiers with the same number are the same identifier.
pub proof fn law_object_ids_are_their_numbers(a: ObjectId, b: ObjectId)
    ensures
        a@ == b@ <==> a == b,
{
}

/// The kinds of objects that are created while the daemon runs.
#[derive(Clone, Copy, PartialEq, Eq, Structural, Debug)]
pub enum WlDynObj {
    Output,
    Surface,
    Region,
    LayerSurface,
    Buffer,
    ShmPool,
    Callback,
    Viewport,
    FractionalScale,
}

/// The identifiers of the objects that exist for as long as the connection does.
#[derive(Clone, Copy, Debug)]
pub struct Globals {
    pub display: ObjectId,
    pub registry: ObjectId,
    pub compositor: ObjectId,
    pub shm: ObjectId,
    pub viewporter: ObjectId,
    pub layer_shell: ObjectId,
}

/// The interfaces that define no events.
#[derive(Clone, Copy, PartialEq, Eq, Structural, Debug)]
pub enum Silent {
    Compositor,
    Viewporter,
    LayerShell,
    Region,
    ShmPool,
    Viewport,
}

/// Where an event goes.
#[derive(Clone, Copy, PartialEq, Eq, Structural, Debug)]
pub enum Route {
    Display,
    Registry,
    Shm,
    Output,
    Surface,
    LayerSurface,
    Buffer,
    Callback,
    FractionalScale,
    /// The sender's interface has no events: nothing handles this one.
    NoEvents(Silent),
    /// The sender is not, or no longer, a known object.
    Deleted,
}

/// Where an event of an object created at run time goes, by the kind of that object.
pub open spec fn dynamic_route(object: Option<WlDynObj>) -> Route {
    match object {
        Some(WlDynObj::Output) => Route::Output,
        Some(WlDynObj::Surface) => Route::Surface,
        Some(WlDynObj::Region) => Route::NoEvents(Silent::Region),
        Some(WlDynObj::LayerSurface) => Route::LayerSurface,
        Some(WlDynObj::Buffer) => Route::Buffer,
        Some(WlDynObj::ShmPool) => Route::NoEvents(Silent::ShmPool),
        Some(WlDynObj::Callback) => Route::Callback,
        Some(WlDynObj::Viewport) => Route::NoEvents(Silent::Viewport),
        Some(WlDynObj::FractionalScale) => Route::FractionalScale,
        None => Route::Deleted,
    }
}

/// Where an event goes: to the global object that sent it, else by the kind of its sender.
pub open spec fn route_of(globals: Globals, sender: ObjectId, object: Option<WlDynObj>) -> Route {
    if sender == globals.display {
        Route::Display
    } else if sender == globals.registry {
        Route::Registry
    } else if sender == globals.compositor {
        Route::NoEvents(Silent::Compositor)
    } else if sender == globals.shm {
        Route::Shm
    } else if sender == globals.viewporter {
        Route::NoEvents(Silent::Viewporter)
    } else if sender == globals.layer_shell {
        Route::NoEvents(Silent::LayerShell)
    } else {
        dynamic_route(object)
    }
}

/// Decides where an event goes. `object` is what the sender is known as, if it is known.
pub fn route(globals: &Globals, sender: ObjectId, object: Option<WlDynObj>) -> (route: Route)
    ensures
        route == route_of(*globals, sender, object),
{
    if sender == globals.display {
        Route::Display
    } else if sender == globals.registry {
        Route::Registry
    } else if sender == globals.compositor {
        Route::NoEvents(Silent::Compositor)
    } else if sender == globals.shm {
        Route::Shm
    } else if sender == globals.viewporter {
        Route::NoEvents(Silent::Viewporter)
    } else if sender == globals.layer_shell {
        Route::NoEvents(Silent::LayerShell)
    } else {
        match object {
            Some(WlDynObj::Output) => Route::Output,
            Some(WlDynObj::Surface) => Route::Surface,
            Some(WlDynObj::Region) => Route::NoEvents(Silent::Region),
            Some(WlDynObj::LayerSurface) => Route::LayerSurface,
            Some(WlDynObj::Buffer) => Route::Buffer,
            Some(WlDynObj::ShmPool) => Route::NoEvents(Silent::ShmPool),
            Some(WlDynObj::Callback) => Route::Callback,
            Some(WlDynObj::Viewport) => Route::NoEvents(Silent::Viewport),
            Some(WlDynObj::FractionalScale) => Route::FractionalScale,
            None => Route::Deleted,
        }
    }
}

/// Whether an object is one of those that exist for as long as the connection does.
pub open spec fn is_global(globals: Globals, sender: ObjectId) -> bool {
    ||| sender@ == globals.display@
    ||| sender@ == globals.registry@
    ||| sender@ == globals.compositor@
    ||| sender@ == globals.shm@
    ||| sender@ == globals.viewporter@
    ||| sender@ == globals.layer_shell@
}

/// Whether no two of those objects have the same number.
pub open spec fn globals_differ(globals: Globals) -> bool {
    &&& globals.display@ != globals.registry@
    &&& globals.display@ != globals.compositor@
    &&& globals.display@ != globals.shm@
    &&& globals.display@ != globals.viewporter@
    &&& globals.display@ != globals.layer_shell@
    &&& globals.registry@ != globals.compositor@
    &&& globals.registry@ != globals.shm@
    &&& globals.registry@ != globals.viewporter@
    &&& globals.registry@ != globals.layer_shell@
    &&& globals.compositor@ != globals.shm@
    &&& globals.compositor@ != globals.viewporter@
    &&& globals.compositor@ != globals.layer_shell@
    &&& globals.shm@ != globals.viewporter@
    &&& globals.shm@ != globals.layer_shell@
    &&& globals.viewporter@ != globals.layer_shell@
}

/// Events of the objects that exist from the start go by who has sent them, whatever else the
/// sender is taken for, and nobody else's events go there.
pub proof fn law_events_of_globals(
    globals: Globals,
    sender: ObjectId,
    object: Option<WlDynObj>,
)
    requires
        globals_differ(globals),
    ensures
        ({
            let to = route_of(globals, sender, object);
            &&& to is Display <==> sender@ == globals.display@
            &&& to is Registry <==> sender@ == globals.registry@
            &&& to is Shm <==> sender@ == globals.shm@
            &&& to == Route::NoEvents(Silent::Compositor) <==> sender@ == globals.compositor@
            &&& to == Route::NoEvents(Silent::Viewporter) <==> sender@ == globals.viewporter@
            &&& to == Route::NoEvents(Silent::LayerShell) <==> sender@ == globals.layer_shell@
        }),
{
}

/// Events of all other objects go by what their sender is known as.
pub proof fn law_events_of_other_objects(
    globals: Globals,
    sender: ObjectId,
    object: Option<WlDynObj>,
)
    ensures
        ({
            let to = route_of(globals, sender, object);
            let other = !is_global(globals, sender);
            &&& to is Deleted <==> other && object is None
            &&& to is Output <==> other && object == Some(WlDynObj::Output)
            &&& to is Surface <==> other && object == Some(WlDynObj::Surface)
            &&& to is LayerSurface <==> other && object == Some(WlDynObj::LayerSurface)
            &&& to is Buffer <==> other && object == Some(WlDynObj::Buffer)
            &&& to is Callback <==> other && object == Some(WlDynObj::Callback)
            &&& to is FractionalScale <==> other && object == Some(WlDynObj::FractionalScale)
            &&& to == Route::NoEvents(Silent::Region) <==> other && object == Some(
                WlDynObj::Region,
            )
            &&& to == Route::NoEvents(Silent::ShmPool) <==> other && object == Some(
                WlDynObj::ShmPool,
            )
            &&& to == Route::NoEvents(Silent::Viewport) <==> other && object == Some(
                WlDynObj::Viewport,
            )
        }),
{
}

} // verus!
