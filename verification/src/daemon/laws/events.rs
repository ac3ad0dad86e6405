//! What holds of the events of the compositor, of the outputs they are about, and of what clients
//! are told of these.

use vstd::prelude::*;

use crate::animator::{drawn_on, lemma_stopped_members, stopped_on};
use crate::daemon::draw::{callback_answered, draw_begin, DrawState};
use crate::daemon::{
    acknowledges, added, awaiting, committed, filled, found, global_action, infos, initial,
    is_first, is_named, lemma_no_position, lemma_position, live, named, position, release_at,
    release_next, removed_from, stopped_animations, to_commit, told_buffer_scale, told_description,
    told_dimensions, told_fraction, told_name, told_scale, told_transform, DaemonState,
    GlobalAction, InitState, Outcome, ReleaseStep,
};
use crate::objects::ObjectId;
use crate::wallpaper::{
    BgImgState, Key, OutputBinding, PixelFormat, Scale, WallpaperId, WallpaperState,
};

use super::law_strong_count;

verus! {

/// Whether the wallpaper at `i` is the first of which something holds.
pub open spec fn first_where<S>(
    wallpapers: Seq<WallpaperState<S>>,
    holds: spec_fn(WallpaperState<S>) -> bool,
    i: int,
) -> bool {
    &&& 0 <= i < wallpapers.len()
    &&& holds(wallpapers[i])
    &&& forall|j: int| 0 <= j < i ==> !holds(#[trigger] wallpapers[j])
}

/// Whether something holds of no wallpaper.
pub open spec fn nowhere<S>(
    wallpapers: Seq<WallpaperState<S>>,
    holds: spec_fn(WallpaperState<S>) -> bool,
) -> bool {
    forall|j: int| 0 <= j < wallpapers.len() ==> !holds(#[trigger] wallpapers[j])
}

/// Being on the output that is this object.
pub open spec fn on_output<S>(object: ObjectId) -> spec_fn(WallpaperState<S>) -> bool {
    |w: WallpaperState<S>| w.output == object
}

/// Being on the surface that is this object.
pub open spec fn on_surface<S>(object: ObjectId) -> spec_fn(WallpaperState<S>) -> bool {
    |w: WallpaperState<S>| w.surface == object
}

/// Being on the layer surface that is this object.
pub open spec fn on_layer_surface<S>(object: ObjectId) -> spec_fn(WallpaperState<S>) -> bool {
    |w: WallpaperState<S>| w.layer_surface == object
}

/// Being scaled by this object.
pub open spec fn scaled_by<S>(object: ObjectId) -> spec_fn(WallpaperState<S>) -> bool {
    |w: WallpaperState<S>| w.fractional_scale == Some(object)
}

/// Having asked for this frame callback last.
pub open spec fn called_back_by<S>(object: ObjectId) -> spec_fn(WallpaperState<S>) -> bool {
    |w: WallpaperState<S>| w.callback == Some(object)
}

/// Being on the output of this name in the registry.
pub open spec fn registered_as<S>(name: u32) -> spec_fn(WallpaperState<S>) -> bool {
    |w: WallpaperState<S>| w.output_name == name
}

/// Being this wallpaper.
pub open spec fn identified_by<S>(id: WallpaperId) -> spec_fn(WallpaperState<S>) -> bool {
    |w: WallpaperState<S>| w.id == id
}

/// The daemon with another wallpaper at `i`, and nothing else different.
pub open spec fn with_wallpaper<S, T, I>(
    d: DaemonState<S, T, I>,
    i: int,
    w: WallpaperState<S>,
) -> DaemonState<S, T, I> {
    DaemonState { wallpapers: d.wallpapers.update(i, w), ..d }
}

/// What is the first by one of its fields is found by the key that stands for that field.
proof fn lemma_found_by<S>(
    wallpapers: Seq<WallpaperState<S>>,
    key: Key,
    holds: spec_fn(WallpaperState<S>) -> bool,
    i: int,
)
    requires
        forall|w: WallpaperState<S>| #[trigger] holds(w) == w.has(key),
        first_where(wallpapers, holds, i),
    ensures
        is_first(wallpapers, key, i),
        position(wallpapers, key) == Some(i),
{
    assert(holds(wallpapers[i]) == wallpapers[i].has(key));
    assert forall|j: int| 0 <= j < i implies !(#[trigger] wallpapers[j]).has(key) by {
        assert(holds(wallpapers[j]) == wallpapers[j].has(key));
    }
    lemma_position(wallpapers, key, i);
}

/// What holds nowhere of a field is not found by the key that stands for that field.
proof fn lemma_found_nowhere<S>(
    wallpapers: Seq<WallpaperState<S>>,
    key: Key,
    holds: spec_fn(WallpaperState<S>) -> bool,
)
    requires
        forall|w: WallpaperState<S>| #[trigger] holds(w) == w.has(key),
        nowhere(wallpapers, holds),
    ensures
        position(wallpapers, key) is None,
{
    assert forall|j: int| 0 <= j < wallpapers.len() implies !(#[trigger] wallpapers[j]).has(
        key,
    ) by {
        assert(holds(wallpapers[j]) == wallpapers[j].has(key));
    }
    lemma_no_position(wallpapers, key);
}

// What outputs tell.

/// What an output tells is noted of the wallpaper on it, the first one if there were several, and
/// nothing else changes. There are eight ways to turn and mirror an output, counted from zero, and
/// a factor of zero is no scale: anything else is rejected.
pub proof fn law_outputs_are_taken_at_their_word<S, T, I>(
    d: DaemonState<S, T, I>,
    sender: ObjectId,
    i: int,
    n: i32,
    m: i32,
    text: Seq<char>,
)
    requires
        first_where(d.wallpapers, on_output(sender), i),
    ensures
        ({
            let w = d.wallpapers[i];
            let applied = Outcome::Applied(w.id);
            &&& told_transform(d, sender, n) == if 0 <= n <= 7 {
                (
                    with_wallpaper(d, i, WallpaperState { transform: Some(n as u32), ..w }),
                    applied,
                )
            } else {
                (d, Outcome::Rejected)
            }
            &&& told_dimensions(d, sender, n, m) == (
                with_wallpaper(d, i, WallpaperState { dimensions: Some((n, m)), ..w }),
                applied,
            )
            &&& told_scale(d, sender, n) == if n != 0 {
                (
                    with_wallpaper(d, i, WallpaperState { scale: Some(Scale::Whole(n)), ..w }),
                    applied,
                )
            } else {
                (d, Outcome::Rejected)
            }
            &&& told_name(d, sender, text) == (
                with_wallpaper(d, i, WallpaperState { name: Some(text), ..w }),
                applied,
            )
            &&& told_description(d, sender, text) == (
                with_wallpaper(d, i, WallpaperState { desc: Some(text), ..w }),
                applied,
            )
            &&& to_commit(d, sender) == Some(w.id)
        }),
{
    lemma_found_by(d.wallpapers, Key::Output(sender), on_output(sender), i);
}

/// What is told of an output that no wallpaper is on changes nothing, and nothing is committed.
pub proof fn law_unknown_outputs_change_nothing<S, T, I>(
    d: DaemonState<S, T, I>,
    sender: ObjectId,
    n: i32,
    m: i32,
    text: Seq<char>,
)
    requires
        nowhere(d.wallpapers, on_output(sender)),
    ensures
        told_transform(d, sender, n) == (d, Outcome::UnknownSender),
        told_dimensions(d, sender, n, m) == (d, Outcome::UnknownSender),
        told_scale(d, sender, n) == (d, Outcome::UnknownSender),
        told_name(d, sender, text) == (d, Outcome::UnknownSender),
        told_description(d, sender, text) == (d, Outcome::UnknownSender),
        to_commit(d, sender) is None,
{
    lemma_found_nowhere(d.wallpapers, Key::Output(sender), on_output(sender));
}

/// A whole factor for a surface is noted of the wallpaper on that surface, unless it is zero.
pub proof fn law_surfaces_are_scaled<S, T, I>(
    d: DaemonState<S, T, I>,
    sender: ObjectId,
    i: int,
    factor: i32,
)
    ensures
        first_where(d.wallpapers, on_surface(sender), i) ==> told_buffer_scale(d, sender, factor)
            == if factor != 0 {
            (
                with_wallpaper(
                    d,
                    i,
                    WallpaperState { scale: Some(Scale::Whole(factor)), ..d.wallpapers[i] },
                ),
                Outcome::Applied(d.wallpapers[i].id),
            )
        } else {
            (d, Outcome::Rejected)
        },
        nowhere(d.wallpapers, on_surface(sender)) ==> told_buffer_scale(d, sender, factor) == (
            d,
            Outcome::UnknownSender,
        ),
{
    if first_where(d.wallpapers, on_surface(sender), i) {
        lemma_found_by(d.wallpapers, Key::Surface(sender), on_surface(sender), i);
    }
    if nowhere(d.wallpapers, on_surface(sender)) {
        lemma_found_nowhere(d.wallpapers, Key::Surface(sender), on_surface(sender));
    }
}

/// A fraction is noted, as the signed number of the same bits, of the wallpaper that its sender
/// scales, unless it is zero, and is to be committed.
pub proof fn law_fractions_are_committed<S, T, I>(
    d: DaemonState<S, T, I>,
    sender: ObjectId,
    i: int,
    scale: u32,
)
    ensures
        ({
            let (now, outcome) = told_fraction(d, sender, scale);
            let w = d.wallpapers[i];
            &&& first_where(d.wallpapers, scaled_by(sender), i) && scale != 0 ==> {
                &&& outcome == Outcome::Commit(w.id)
                &&& now == with_wallpaper(
                    d,
                    i,
                    WallpaperState { scale: now.wallpapers[i].scale, ..w },
                )
                &&& now.wallpapers[i].scale matches Some(Scale::Fractional(factor))
                &&& factor - scale == 0 || scale - factor == 0x1_0000_0000
            }
            &&& first_where(d.wallpapers, scaled_by(sender), i) && scale == 0 ==> (now, outcome)
                == (d, Outcome::Rejected)
            &&& nowhere(d.wallpapers, scaled_by(sender)) ==> (now, outcome) == (
                d,
                Outcome::UnknownSender,
            )
        }),
{
    if first_where(d.wallpapers, scaled_by(sender), i) {
        lemma_found_by(d.wallpapers, Key::FractionalScale(sender), scaled_by(sender), i);
        let now = told_fraction(d, sender, scale).0;
        if scale != 0 {
            assert(now.wallpapers =~= with_wallpaper(
                d,
                i,
                WallpaperState { scale: now.wallpapers[i].scale, ..d.wallpapers[i] },
            ).wallpapers);
        }
    }
    if nowhere(d.wallpapers, scaled_by(sender)) {
        lemma_found_nowhere(d.wallpapers, Key::FractionalScale(sender), scaled_by(sender));
    }
}

/// The size of a layer surface is acknowledged if and only if a wallpaper is on it.
pub proof fn law_sizes_of_known_surfaces_are_acknowledged<S, T, I>(
    d: DaemonState<S, T, I>,
    sender: ObjectId,
    i: int,
)
    ensures
        first_where(d.wallpapers, on_layer_surface(sender), i) ==> acknowledges(d, sender),
        nowhere(d.wallpapers, on_layer_surface(sender)) ==> !acknowledges(d, sender),
{
    if first_where(d.wallpapers, on_layer_surface(sender), i) {
        lemma_found_by(d.wallpapers, Key::LayerSurface(sender), on_layer_surface(sender), i);
    }
    if nowhere(d.wallpapers, on_layer_surface(sender)) {
        lemma_found_nowhere(d.wallpapers, Key::LayerSurface(sender), on_layer_surface(sender));
    }
}

/// After a commit that asks for a stop, no animation of either kind draws on the wallpaper, and on
/// every other the same is animated as before. Without a stop nothing about the animations
/// changes. Of the wallpapers, only whether the committed one is set up changes, and of a
/// wallpaper that is not there nothing is committed.
pub proof fn law_commits_stop_what_has_become_pointless<S, T, I>(
    d: DaemonState<S, T, I>,
    id: WallpaperId,
    i: int,
    configured: bool,
    stop: bool,
)
    requires
        d.wf(),
    ensures
        ({
            let now = committed(d, id, configured, stop);
            &&& first_where(d.wallpapers, identified_by(id), i) ==> {
                &&& now == (DaemonState {
                    wallpapers: d.wallpapers.update(
                        i,
                        WallpaperState { configured, ..d.wallpapers[i] },
                    ),
                    transitions: now.transitions,
                    images: now.images,
                    ..d
                })
                &&& !stop ==> now.transitions == d.transitions && now.images == d.images
                &&& stop ==> {
                    &&& forall|j: int|
                        0 <= j < now.transitions.len() ==> !(
                        #[trigger] now.transitions[j]).wallpapers.contains(id)
                    &&& forall|j: int|
                        0 <= j < now.images.len() ==> !(
                        #[trigger] now.images[j]).wallpapers.contains(id)
                    &&& forall|w: WallpaperId| #![trigger drawn_on(now.transitions, w)]
                        #![trigger drawn_on(now.images, w)]
                        w != id ==> drawn_on(now.transitions, w) == drawn_on(d.transitions, w)
                            && drawn_on(now.images, w) == drawn_on(d.images, w)
                    &&& now.transitions == stopped_on(d.transitions, seq![id])
                    &&& now.images == stopped_on(d.images, seq![id])
                }
            }
            &&& nowhere(d.wallpapers, identified_by(id)) ==> now == d
        }),
{
    let now = committed(d, id, configured, stop);
    if first_where(d.wallpapers, identified_by(id), i) {
        lemma_found_by(d.wallpapers, Key::Id(id), identified_by(id), i);
        assert(d.wallpapers[i].id == id);
        if stop {
            let stopped = seq![id];
            assert(stopped[0] == id);
            lemma_stopped_members(d.transitions, stopped, id);
            lemma_stopped_members(d.images, stopped, id);
            assert forall|j: int| 0 <= j < now.transitions.len() implies !(
            #[trigger] now.transitions[j]).wallpapers.contains(id) by {
                assert(!drawn_on(now.transitions, id));
            }
            assert forall|j: int| 0 <= j < now.images.len() implies !(
            #[trigger] now.images[j]).wallpapers.contains(id) by {
                assert(!drawn_on(now.images, id));
            }
            assert forall|w: WallpaperId| #![trigger drawn_on(now.transitions, w)]
                #![trigger drawn_on(now.images, w)]
                w != id implies drawn_on(now.transitions, w) == drawn_on(d.transitions, w)
                && drawn_on(now.images, w) == drawn_on(d.images, w) by {
                lemma_stopped_members(d.transitions, stopped, w);
                lemma_stopped_members(d.images, stopped, w);
            }
        }
    }
    if nowhere(d.wallpapers, identified_by(id)) {
        lemma_found_nowhere(d.wallpapers, Key::Id(id), identified_by(id));
        if live(d.wallpapers, id) {
            let k = choose|k: int|
                0 <= k < d.wallpapers.len() && (#[trigger] d.wallpapers[k]).id == id;
            assert(identified_by::<S>(id)(d.wallpapers[k]));
        }
    }
}

// Frames.

/// A frame that was handed over makes its wallpaper wait for the callback, and changes nothing
/// else.
pub proof fn law_handed_frames_are_waited_for<S, T, I>(
    d: DaemonState<S, T, I>,
    id: WallpaperId,
    i: int,
    callback: ObjectId,
)
    ensures
        first_where(d.wallpapers, identified_by(id), i) ==> awaiting(d, id, callback)
            == with_wallpaper(
            d,
            i,
            WallpaperState { callback: Some(callback), draw_ready: false, ..d.wallpapers[i] },
        ),
        nowhere(d.wallpapers, identified_by(id)) ==> awaiting(d, id, callback) == d,
{
    if first_where(d.wallpapers, identified_by(id), i) {
        lemma_found_by(d.wallpapers, Key::Id(id), identified_by(id), i);
    }
    if nowhere(d.wallpapers, identified_by(id)) {
        lemma_found_nowhere(d.wallpapers, Key::Id(id), identified_by(id));
    }
}

/// A callback that is answered makes the wallpaper that has asked for it ready, and a pass begins
/// at once. One that nobody has asked for begins none.
pub proof fn law_answered_callbacks_begin_a_pass<S, T, I>(
    d: DaemonState<S, T, I>,
    sender: ObjectId,
    i: int,
)
    ensures
        first_where(d.wallpapers, called_back_by(sender), i) ==> callback_answered(d, sender)
            == draw_begin(
            with_wallpaper(d, i, WallpaperState { draw_ready: true, ..d.wallpapers[i] }),
        ),
        nowhere(d.wallpapers, called_back_by(sender)) ==> callback_answered(d, sender) == (
        DrawState::Done { daemon: d }),
{
    if first_where(d.wallpapers, called_back_by(sender), i) {
        lemma_found_by(d.wallpapers, Key::Callback(sender), called_back_by(sender), i);
    }
    if nowhere(d.wallpapers, called_back_by(sender)) {
        lemma_found_nowhere(d.wallpapers, Key::Callback(sender), called_back_by(sender));
    }
}

/// What fills a wallpaper is noted of that wallpaper, and of nothing else.
pub proof fn law_fillings_are_noted<S, T, I>(
    d: DaemonState<S, T, I>,
    id: WallpaperId,
    i: int,
    img: BgImgState,
)
    ensures
        first_where(d.wallpapers, identified_by(id), i) ==> filled(d, id, img) == with_wallpaper(
            d,
            i,
            WallpaperState { img: Some(img), ..d.wallpapers[i] },
        ),
        nowhere(d.wallpapers, identified_by(id)) ==> filled(d, id, img) == d,
{
    if first_where(d.wallpapers, identified_by(id), i) {
        lemma_found_by(d.wallpapers, Key::Id(id), identified_by(id), i);
    }
    if nowhere(d.wallpapers, identified_by(id)) {
        lemma_found_nowhere(d.wallpapers, Key::Id(id), identified_by(id));
    }
}

/// Wallpapers are asked for a released buffer from the first on, each with how many hold on to it,
/// which is one more where an animation draws on it. The first that has it is the last that is
/// asked.
pub proof fn law_everyone_is_asked_for_a_buffer<S, T, I>(
    d: DaemonState<S, T, I>,
    index: int,
    released: bool,
)
    requires
        d.wf(),
        0 <= index,
        d.wallpapers.len() <= usize::MAX,
    ensures
        release_at(d, index) is Done <==> index >= d.wallpapers.len(),
        release_at(d, index) matches ReleaseStep::Try { index: asked, wallpaper, strong_count }
            ==> {
            &&& asked == index
            &&& wallpaper == d.wallpapers[index].id
            &&& strong_count == 2 <==> drawn_on(d.transitions, wallpaper) || drawn_on(
                d.images,
                wallpaper,
            )
            &&& strong_count == 1 || strong_count == 2
        },
        release_next(d, index, true) is Done,
        release_next(d, index, false) == release_at(d, index + 1),
{
    if index < d.wallpapers.len() {
        law_strong_count(d, d.wallpapers[index].id);
    }
}

// Outputs that come and go.

/// An output is bound if and only if the registry calls it one and its version is at least four,
/// and then by the name it was announced with.
pub proof fn law_recent_outputs_are_bound(name: u32, interface: Seq<char>, version: u32)
    ensures
        ({
            let action = global_action(name, interface, version);
            &&& action is Ignore <==> interface != "wl_output"@
            &&& action is TooOld <==> interface == "wl_output"@ && version < 4
            &&& action is Bind <==> interface == "wl_output"@ && version >= 4
            &&& action matches GlobalAction::Bind(bound) ==> bound == name
        }),
{
}

/// Whether a wallpaper is one on an output that was just bound: it has the objects made for that,
/// and nothing is known of it beyond them.
pub open spec fn is_just_bound<S>(
    w: WallpaperState<S>,
    output_name: u32,
    binding: OutputBinding<S>,
) -> bool {
    &&& w.output_name == output_name
    &&& w.output == binding.output
    &&& w.surface == binding.surface
    &&& w.layer_surface == binding.layer_surface
    &&& w.fractional_scale == binding.fractional_scale
    &&& w.callback == binding.callback
    &&& w.draw_ready == binding.draw_ready
    &&& w.configured == binding.configured
    &&& w.resources == binding.resources
    &&& w.name is None
    &&& w.desc is None
    &&& w.dimensions is None
    &&& w.transform is None
    &&& w.scale is None
    &&& w.img is None
}

/// A new output gets a wallpaper behind the others, which stay as they are, and so does everything
/// else. The identity of it is the next one.
pub proof fn law_new_outputs_come_last<S, T, I>(
    d: DaemonState<S, T, I>,
    output_name: u32,
    binding: OutputBinding<S>,
)
    requires
        d.next_serial < u64::MAX,
    ensures
        ({
            let now = added(d, output_name, binding);
            let new = now.wallpapers.last();
            &&& now == (DaemonState {
                wallpapers: d.wallpapers.push(new),
                next_serial: now.next_serial,
                ..d
            })
            &&& now.next_serial == d.next_serial + 1
            &&& new.id.serial == d.next_serial
            &&& is_just_bound(new, output_name, binding)
        }),
{
    let now = added(d, output_name, binding);
    assert(now.wallpapers =~= d.wallpapers.push(now.wallpapers.last()));
}

/// A daemon begins with a wallpaper for each output, in order, without animations, and with
/// nothing to draw. The cache is used unless that is switched off.
pub proof fn law_daemons_begin_with_their_outputs<S, T, I>(
    init: InitState<S>,
    no_cache: bool,
    i: int,
)
    requires
        init.outputs@.len() <= u64::MAX,
    ensures
        ({
            let d = initial::<S, T, I>(init, no_cache);
            &&& d.wallpapers.len() == init.outputs@.len()
            &&& 0 <= i < d.wallpapers.len() ==> {
                &&& is_just_bound(d.wallpapers[i], init.outputs@[i].0, init.outputs@[i].1)
                &&& d.wallpapers[i].id.serial == i
            }
            &&& d.next_serial == d.wallpapers.len()
            &&& d.transitions.len() == 0
            &&& d.images.len() == 0
            &&& d.poll_time is Never
            &&& d.use_cache != no_cache
            &&& d.pixel_format == init.pixel_format
            &&& d.fractional_scale_manager == init.fractional_scale
        }),
{
}

/// An output that goes takes the first wallpaper on it along, and everything that draws there. So
/// does a layer surface that is closed. Whoever is on neither changes nothing by going.
pub proof fn law_outputs_take_their_wallpaper_along<S, T, I>(
    d: DaemonState<S, T, I>,
    name: u32,
    sender: ObjectId,
    i: int,
)
    ensures
        first_where(d.wallpapers, registered_as(name), i) ==> {
            &&& found(d.wallpapers, Key::OutputName(name)) == Some(d.wallpapers[i])
            &&& removed_from(d, Key::OutputName(name)) == without_wallpaper(d, i)
        },
        nowhere(d.wallpapers, registered_as(name)) ==> {
            &&& found(d.wallpapers, Key::OutputName(name)) is None
            &&& removed_from(d, Key::OutputName(name)) == d
        },
        first_where(d.wallpapers, on_layer_surface(sender), i) ==> {
            &&& found(d.wallpapers, Key::LayerSurface(sender)) == Some(d.wallpapers[i])
            &&& removed_from(d, Key::LayerSurface(sender)) == without_wallpaper(d, i)
        },
        nowhere(d.wallpapers, on_layer_surface(sender)) ==> {
            &&& found(d.wallpapers, Key::LayerSurface(sender)) is None
            &&& removed_from(d, Key::LayerSurface(sender)) == d
        },
{
    if first_where(d.wallpapers, registered_as(name), i) {
        lemma_found_by(d.wallpapers, Key::OutputName(name), registered_as(name), i);
    }
    if nowhere(d.wallpapers, registered_as(name)) {
        lemma_found_nowhere(d.wallpapers, Key::OutputName(name), registered_as(name));
    }
    if first_where(d.wallpapers, on_layer_surface(sender), i) {
        lemma_found_by(d.wallpapers, Key::LayerSurface(sender), on_layer_surface(sender), i);
    }
    if nowhere(d.wallpapers, on_layer_surface(sender)) {
        lemma_found_nowhere(d.wallpapers, Key::LayerSurface(sender), on_layer_surface(sender));
    }
}

/// The daemon without the wallpaper at `i`, and without anything that draws on it.
pub open spec fn without_wallpaper<S, T, I>(
    d: DaemonState<S, T, I>,
    i: int,
) -> DaemonState<S, T, I> {
    DaemonState {
        wallpapers: d.wallpapers.remove(i),
        transitions: stopped_on(d.transitions, seq![d.wallpapers[i].id]),
        images: stopped_on(d.images, seq![d.wallpapers[i].id]),
        ..d
    }
}

/// Stopping is done to transitions and images alike, and to nothing else.
pub proof fn law_stopping_is_for_both_kinds<S, T, I>(
    d: DaemonState<S, T, I>,
    stopped: Seq<WallpaperId>,
)
    ensures
        stopped_animations(d, stopped) == (DaemonState {
            transitions: stopped_on(d.transitions, stopped),
            images: stopped_on(d.images, stopped),
            ..d
        }),
{
}

// What clients are told, and whom they mean.

/// A client is told of each wallpaper, in order, its name, its dimensions, its scale and what
/// fills it, and of the layout of pixels.
pub proof fn law_queries_tell_what_is_known<S>(
    wallpapers: Seq<WallpaperState<S>>,
    pixel_format: PixelFormat,
    i: int,
)
    ensures
        infos(wallpapers, pixel_format).len() == wallpapers.len(),
        0 <= i < wallpapers.len() ==> {
            let told = infos(wallpapers, pixel_format)[i];
            &&& told.name == wallpapers[i].name
            &&& told.dimensions == wallpapers[i].dimensions
            &&& told.scale == wallpapers[i].scale
            &&& told.img == wallpapers[i].img
            &&& told.pixel_format == pixel_format
        },
{
}

/// Whether a list of names means a wallpaper: it is empty, or the name of the wallpaper is in it.
pub open spec fn is_meant<S>(w: WallpaperState<S>, names: Seq<Seq<char>>) -> bool {
    names.len() == 0 || exists|k: int|
        0 <= k < names.len() && w.name == Some(#[trigger] names[k])
}

/// Wallpapers are looked up one by one: one more is meant, behind the others that are, if the list
/// is empty or its name is in it.
pub proof fn law_names_are_looked_up_one_by_one<S>(
    wallpapers: Seq<WallpaperState<S>>,
    w: WallpaperState<S>,
    names: Seq<Seq<char>>,
)
    ensures
        named(Seq::<WallpaperState<S>>::empty(), names) == Seq::<WallpaperId>::empty(),
        is_meant(w, names) ==> named(wallpapers.push(w), names) == named(wallpapers, names).push(
            w.id,
        ),
        !is_meant(w, names) ==> named(wallpapers.push(w), names) == named(wallpapers, names),
{
    reveal(Seq::filter);
    let keep = |x: WallpaperState<S>| is_named(x, names);
    let id_of = |x: WallpaperState<S>| x.id;
    let kept = wallpapers.filter(keep);
    assert(wallpapers.push(w).drop_last() =~= wallpapers);
    assert(named(Seq::<WallpaperState<S>>::empty(), names) =~= Seq::empty());
    lemma_is_meant(w, names);
    if is_meant(w, names) {
        assert(kept.push(w).map_values(id_of) =~= kept.map_values(id_of).push(w.id));
    }
}

/// Being meant is being named.
pub proof fn lemma_is_meant<S>(w: WallpaperState<S>, names: Seq<Seq<char>>)
    ensures
        is_meant(w, names) == is_named(w, names),
{
    if names.len() > 0 && is_meant(w, names) {
        let k = choose|k: int| 0 <= k < names.len() && w.name == Some(#[trigger] names[k]);
        assert(w.has_name(names[k]));
    }
    if names.len() > 0 && is_named(w, names) {
        let k = choose|k: int| 0 <= k < names.len() && w.has_name(#[trigger] names[k]);
        assert(w.name == Some(names[k]));
    }
}

} // verus!
