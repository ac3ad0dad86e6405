//! The daemon: its wallpapers, its animations, and what it does about each event of the compositor.

use vstd::prelude::*;

use crate::animator::{
    count_uses, drawn_on, exclusive, lemma_stopped_exclusive, lemma_stopped_members,
    lemma_uses_of_exclusive, states, stop_on, stopped_on, uses, Animator, AnimatorState,
};
use crate::objects::{number_of, object_number, ObjectId};
use crate::poll::PollTime;
use crate::seqs::lemma_filter_step;
use crate::wallpaper::{
    new_wallpaper, scale_factor, BgImg, BgImgState, BgInfo, BgInfoState, Key, OutputBinding,
    PixelFormat, Scale, Wallpaper, WallpaperId, WallpaperState,
};

pub mod draw;
pub mod laws;
pub mod serve;

verus! {

/// The last of the ways in which an output can be turned and mirrored.
pub const FLIPPED_270: u32 = 7;

/// The oldest version of outputs that the daemon can work with.
pub const MIN_OUTPUT_VERSION: u32 = 4;

/// The daemon. What it takes to draw on a wallpaper is an `S`; what a transition does is a `T`,
/// and what an animated image does is an `I`.
pub struct Daemon<S, T, I> {
    pixel_format: PixelFormat,
    wallpapers: Vec<Wallpaper<S>>,
    transition_animators: Vec<Animator<T>>,
    image_animators: Vec<Animator<I>>,
    use_cache: bool,
    fractional_scale_manager: Option<ObjectId>,
    poll_time: PollTime,
    next_serial: u64,
}

/// The model of the daemon.
#[verifier::ext_equal]
pub struct DaemonState<S, T, I> {
    pub pixel_format: PixelFormat,
    pub wallpapers: Seq<WallpaperState<S>>,
    pub transitions: Seq<AnimatorState<T>>,
    pub images: Seq<AnimatorState<I>>,
    pub use_cache: bool,
    pub fractional_scale_manager: Option<ObjectId>,
    pub poll_time: PollTime,
    /// How many wallpapers there have been so far.
    pub next_serial: u64,
}

/// The models of several wallpapers.
pub open spec fn wallpaper_states<S>(wallpapers: Seq<Wallpaper<S>>) -> Seq<WallpaperState<S>> {
    wallpapers.map_values(|w: Wallpaper<S>| w@)
}

impl<S, T, I> View for Daemon<S, T, I> {
    type V = DaemonState<S, T, I>;

    closed spec fn view(&self) -> DaemonState<S, T, I> {
        DaemonState {
            pixel_format: self.pixel_format,
            wallpapers: wallpaper_states(self.wallpapers@),
            transitions: states(self.transition_animators@),
            images: states(self.image_animators@),
            use_cache: self.use_cache,
            fractional_scale_manager: self.fractional_scale_manager,
            poll_time: self.poll_time,
            next_serial: self.next_serial,
        }
    }
}

/// Whether the wallpaper is one of those that the daemon has.
pub open spec fn live<S>(wallpapers: Seq<WallpaperState<S>>, w: WallpaperId) -> bool {
    exists|i: int| 0 <= i < wallpapers.len() && (#[trigger] wallpapers[i]).id == w
}

/// What every wallpaper keeps to: a scale is never zero, and a transform is one that exists.
pub open spec fn sound<S>(w: WallpaperState<S>) -> bool {
    &&& w.scale matches Some(scale) ==> scale_factor(scale) != 0
    &&& w.transform matches Some(transform) ==> transform <= FLIPPED_270
}

impl<S, T, I> DaemonState<S, T, I> {
    /// Whether some animation draws on the wallpaper.
    pub open spec fn animated(self, w: WallpaperId) -> bool {
        drawn_on(self.transitions, w) || drawn_on(self.images, w)
    }

    /// What always holds of the daemon: wallpapers can be told apart, no two animations draw on
    /// one wallpaper, and those that they draw on are there.
    pub open spec fn wf(self) -> bool {
        &&& forall|i: int, j: int|
            0 <= i < j < self.wallpapers.len() ==> (#[trigger] self.wallpapers[i]).id != (
            #[trigger] self.wallpapers[j]).id
        &&& forall|i: int|
            0 <= i < self.wallpapers.len() ==> (#[trigger] self.wallpapers[i]).id.serial
                < self.next_serial
        &&& forall|i: int| 0 <= i < self.wallpapers.len() ==> sound(#[trigger] self.wallpapers[i])
        &&& exclusive(self.transitions)
        &&& exclusive(self.images)
        &&& forall|w: WallpaperId|
            !(#[trigger] drawn_on(self.transitions, w) && #[trigger] drawn_on(self.images, w))
        &&& forall|w: WallpaperId| #[trigger]
            self.animated(w) ==> live(self.wallpapers, w)
    }
}

/// Whether the wallpaper at `i` is the first of those that `key` stands for.
pub open spec fn is_first<S>(wallpapers: Seq<WallpaperState<S>>, key: Key, i: int) -> bool {
    &&& 0 <= i < wallpapers.len()
    &&& wallpapers[i].has(key)
    &&& forall|j: int| 0 <= j < i ==> !(#[trigger] wallpapers[j]).has(key)
}

/// Where the first of the wallpapers is that `key` stands for, if there is one.
pub open spec fn position<S>(wallpapers: Seq<WallpaperState<S>>, key: Key) -> Option<int> {
    if exists|i: int| is_first(wallpapers, key, i) {
        Some(choose|i: int| is_first(wallpapers, key, i))
    } else {
        None
    }
}

/// The first of the wallpapers that `key` stands for is the one where it was found.
pub proof fn lemma_position<S>(wallpapers: Seq<WallpaperState<S>>, key: Key, i: int)
    requires
        is_first(wallpapers, key, i),
    ensures
        position(wallpapers, key) == Some(i),
{
    let p = choose|i: int| is_first(wallpapers, key, i);
    assert(is_first(wallpapers, key, p));
    if p < i {
        assert(!wallpapers[p].has(key));
    }
    if i < p {
        assert(!wallpapers[i].has(key));
    }
}

/// Where no wallpaper has the key, there is no first that has it.
pub proof fn lemma_no_position<S>(wallpapers: Seq<WallpaperState<S>>, key: Key)
    requires
        forall|i: int| 0 <= i < wallpapers.len() ==> !(#[trigger] wallpapers[i]).has(key),
    ensures
        position(wallpapers, key) is None,
{
}

/// A wallpaper that is there is found by its identity, and no other is.
pub proof fn lemma_live<S>(wallpapers: Seq<WallpaperState<S>>, id: WallpaperId)
    ensures
        live(wallpapers, id) <==> position(wallpapers, Key::Id(id)) is Some,
{
    if live(wallpapers, id) {
        let i = choose|i: int| 0 <= i < wallpapers.len() && (#[trigger] wallpapers[i]).id == id;
        lemma_first_before(wallpapers, Key::Id(id), i);
    }
    if position(wallpapers, Key::Id(id)) is Some {
        let i = choose|i: int| is_first(wallpapers, Key::Id(id), i);
        assert(wallpapers[i].id == id);
    }
}

/// Where a wallpaper has the key, there is a first that has it.
pub proof fn lemma_first_before<S>(wallpapers: Seq<WallpaperState<S>>, key: Key, i: int)
    requires
        0 <= i < wallpapers.len(),
        wallpapers[i].has(key),
    ensures
        position(wallpapers, key) is Some,
    decreases i,
{
    if forall|j: int| 0 <= j < i ==> !(#[trigger] wallpapers[j]).has(key) {
        assert(is_first(wallpapers, key, i));
    } else {
        let j = choose|j: int| 0 <= j < i && (#[trigger] wallpapers[j]).has(key);
        lemma_first_before(wallpapers, key, j);
    }
}

/// The daemon when the first wallpaper that `key` stands for is changed by `change`.
pub open spec fn changed<S, T, I>(
    d: DaemonState<S, T, I>,
    key: Key,
    change: spec_fn(WallpaperState<S>) -> WallpaperState<S>,
) -> DaemonState<S, T, I> {
    match position(d.wallpapers, key) {
        Some(i) => DaemonState {
            wallpapers: d.wallpapers.update(i, change(d.wallpapers[i])),
            ..d
        },
        None => d,
    }
}

/// What came of an event that is about one wallpaper.
#[derive(Clone, Copy, PartialEq, Eq, Structural, Debug)]
pub enum Outcome {
    /// No wallpaper has to do with the object that sent it.
    UnknownSender,
    /// What it says makes no sense, and was ignored.
    Rejected,
    /// This wallpaper was changed.
    Applied(WallpaperId),
    /// This wallpaper was changed, and the change is to be committed.
    Commit(WallpaperId),
}

/// What comes of an event: the first wallpaper that `key` stands for is changed, if what the event
/// says is valid. Nothing else is.
pub open spec fn applied<S, T, I>(
    d: DaemonState<S, T, I>,
    key: Key,
    valid: bool,
    change: spec_fn(WallpaperState<S>) -> WallpaperState<S>,
) -> (DaemonState<S, T, I>, Outcome) {
    match position(d.wallpapers, key) {
        None => (d, Outcome::UnknownSender),
        Some(i) => if valid {
            (changed(d, key, change), Outcome::Applied(d.wallpapers[i].id))
        } else {
            (d, Outcome::Rejected)
        },
    }
}

/// What comes of an event that is complete in itself: where a wallpaper is changed, the change is
/// to be committed.
pub open spec fn committing(outcome: Outcome) -> Outcome {
    match outcome {
        Outcome::Applied(id) => Outcome::Commit(id),
        _ => outcome,
    }
}

/// What comes of an output telling how it is turned and mirrored.
pub open spec fn told_transform<S, T, I>(
    d: DaemonState<S, T, I>,
    sender: ObjectId,
    transform: i32,
) -> (DaemonState<S, T, I>, Outcome) {
    applied(
        d,
        Key::Output(sender),
        0 <= transform <= FLIPPED_270,
        |w: WallpaperState<S>| WallpaperState { transform: Some(transform as u32), ..w },
    )
}

/// What comes of an output telling its dimensions.
pub open spec fn told_dimensions<S, T, I>(
    d: DaemonState<S, T, I>,
    sender: ObjectId,
    width: i32,
    height: i32,
) -> (DaemonState<S, T, I>, Outcome) {
    applied(
        d,
        Key::Output(sender),
        true,
        |w: WallpaperState<S>| WallpaperState { dimensions: Some((width, height)), ..w },
    )
}

/// What comes of an output telling the whole factor it scales by.
pub open spec fn told_scale<S, T, I>(
    d: DaemonState<S, T, I>,
    sender: ObjectId,
    factor: i32,
) -> (DaemonState<S, T, I>, Outcome) {
    applied(
        d,
        Key::Output(sender),
        factor != 0,
        |w: WallpaperState<S>| WallpaperState { scale: Some(Scale::Whole(factor)), ..w },
    )
}

/// What comes of the compositor telling the whole factor that is best for a surface.
pub open spec fn told_buffer_scale<S, T, I>(
    d: DaemonState<S, T, I>,
    sender: ObjectId,
    factor: i32,
) -> (DaemonState<S, T, I>, Outcome) {
    applied(
        d,
        Key::Surface(sender),
        factor != 0,
        |w: WallpaperState<S>| WallpaperState { scale: Some(Scale::Whole(factor)), ..w },
    )
}

/// What comes of the compositor telling the fraction that is best for a surface: the change is
/// complete in itself.
pub open spec fn told_fraction<S, T, I>(
    d: DaemonState<S, T, I>,
    sender: ObjectId,
    scale: u32,
) -> (DaemonState<S, T, I>, Outcome) {
    let (now, outcome) = applied(
        d,
        Key::FractionalScale(sender),
        scale != 0,
        |w: WallpaperState<S>|
            WallpaperState { scale: Some(Scale::Fractional(wrapped(scale))), ..w },
    );
    (now, committing(outcome))
}

/// What comes of an output telling its name.
pub open spec fn told_name<S, T, I>(
    d: DaemonState<S, T, I>,
    sender: ObjectId,
    name: Seq<char>,
) -> (DaemonState<S, T, I>, Outcome) {
    applied(
        d,
        Key::Output(sender),
        true,
        |w: WallpaperState<S>| WallpaperState { name: Some(name), ..w },
    )
}

/// What comes of an output telling its description.
pub open spec fn told_description<S, T, I>(
    d: DaemonState<S, T, I>,
    sender: ObjectId,
    description: Seq<char>,
) -> (DaemonState<S, T, I>, Outcome) {
    applied(
        d,
        Key::Output(sender),
        true,
        |w: WallpaperState<S>| WallpaperState { desc: Some(description), ..w },
    )
}

/// The first wallpaper that `key` stands for, if there is one.
pub open spec fn found<S>(
    wallpapers: Seq<WallpaperState<S>>,
    key: Key,
) -> Option<WallpaperState<S>> {
    match position(wallpapers, key) {
        Some(i) => Some(wallpapers[i]),
        None => None,
    }
}

/// The wallpaper whose changes are to be committed when an output has told everything about
/// itself.
pub open spec fn to_commit<S, T, I>(
    d: DaemonState<S, T, I>,
    sender: ObjectId,
) -> Option<WallpaperId> {
    match found(d.wallpapers, Key::Output(sender)) {
        Some(w) => Some(w.id),
        None => None,
    }
}

/// Whether the size that a layer surface was given is to be acknowledged.
pub open spec fn acknowledges<S, T, I>(d: DaemonState<S, T, I>, sender: ObjectId) -> bool {
    found(d.wallpapers, Key::LayerSurface(sender)) is Some
}

/// The daemon when a frame of a wallpaper was handed to the compositor.
pub open spec fn awaiting<S, T, I>(
    d: DaemonState<S, T, I>,
    id: WallpaperId,
    callback: ObjectId,
) -> DaemonState<S, T, I> {
    changed(
        d,
        Key::Id(id),
        |w: WallpaperState<S>| WallpaperState { callback: Some(callback), draw_ready: false, ..w },
    )
}

/// The daemon when what fills a wallpaper is something else.
pub open spec fn filled<S, T, I>(
    d: DaemonState<S, T, I>,
    id: WallpaperId,
    img: BgImgState,
) -> DaemonState<S, T, I> {
    changed(d, Key::Id(id), |w: WallpaperState<S>| WallpaperState { img: Some(img), ..w })
}

/// The daemon when the animations on some wallpapers are stopped.
pub open spec fn stopped_animations<S, T, I>(
    d: DaemonState<S, T, I>,
    stopped: Seq<WallpaperId>,
) -> DaemonState<S, T, I> {
    DaemonState {
        transitions: stopped_on(d.transitions, stopped),
        images: stopped_on(d.images, stopped),
        ..d
    }
}

/// The daemon when the first wallpaper that `key` stands for is gone, with its animations.
pub open spec fn removed_from<S, T, I>(d: DaemonState<S, T, I>, key: Key) -> DaemonState<S, T, I> {
    match position(d.wallpapers, key) {
        Some(i) => stopped_animations(
            DaemonState { wallpapers: d.wallpapers.remove(i), ..d },
            seq![d.wallpapers[i].id],
        ),
        None => d,
    }
}

/// The number as a signed one of the same bits.
pub open spec fn wrapped(n: u32) -> i32 {
    if n <= i32::MAX {
        n as i32
    } else {
        (n - 0x1_0000_0000) as i32
    }
}

/// The daemon with a wallpaper on one more output, which has this name in the registry.
pub open spec fn added<S, T, I>(
    d: DaemonState<S, T, I>,
    output_name: u32,
    binding: OutputBinding<S>,
) -> DaemonState<S, T, I> {
    DaemonState {
        wallpapers: d.wallpapers.push(
            new_wallpaper(WallpaperId { serial: d.next_serial }, output_name, binding),
        ),
        next_serial: (d.next_serial + 1) as u64,
        ..d
    }
}

/// The daemon after the changes to a surface were committed. `stop` says whether that made the
/// animations on it pointless.
pub open spec fn committed<S, T, I>(
    d: DaemonState<S, T, I>,
    id: WallpaperId,
    configured: bool,
    stop: bool,
) -> DaemonState<S, T, I> {
    let now = changed(
        d,
        Key::Id(id),
        |w: WallpaperState<S>| WallpaperState { configured, ..w },
    );
    if stop && live(d.wallpapers, id) {
        stopped_animations(now, seq![id])
    } else {
        now
    }
}

/// The characters of several texts.
pub open spec fn texts(names: Seq<String>) -> Seq<Seq<char>> {
    names.map_values(|n: String| n@)
}

/// Whether a wallpaper is meant by a list of names: an empty one means all.
pub open spec fn is_named<S>(w: WallpaperState<S>, names: Seq<Seq<char>>) -> bool {
    names.len() == 0 || exists|k: int| 0 <= k < names.len() && w.has_name(#[trigger] names[k])
}

/// The wallpapers that are meant by a list of names, in order.
pub open spec fn named<S>(
    wallpapers: Seq<WallpaperState<S>>,
    names: Seq<Seq<char>>,
) -> Seq<WallpaperId> {
    wallpapers.filter(|w: WallpaperState<S>| is_named(w, names)).map_values(
        |w: WallpaperState<S>| w.id,
    )
}

/// What a client is told of all wallpapers, in order.
pub open spec fn infos<S>(
    wallpapers: Seq<WallpaperState<S>>,
    pixel_format: PixelFormat,
) -> Seq<BgInfoState> {
    wallpapers.map_values(|w: WallpaperState<S>| w.bg_info(pixel_format))
}

/// How many hold on to a wallpaper: the daemon, and every animation that draws on it.
pub open spec fn strong_count<S, T, I>(d: DaemonState<S, T, I>, w: WallpaperId) -> nat {
    1 + uses(d.transitions, w) + uses(d.images, w)
}

/// What to do about a new global object of the registry.
#[derive(Clone, Copy, PartialEq, Eq, Structural, Debug)]
pub enum GlobalAction {
    /// It is not an output.
    Ignore,
    /// It is an output, of a version too old to work with.
    TooOld,
    /// Bind it, by its name in the registry, and put a wallpaper on it.
    Bind(u32),
}

/// What to do about a new global object, by its name, its interface, and the version of that.
pub open spec fn global_action(name: u32, interface: Seq<char>, version: u32) -> GlobalAction {
    if interface != "wl_output"@ {
        GlobalAction::Ignore
    } else if version < MIN_OUTPUT_VERSION {
        GlobalAction::TooOld
    } else {
        GlobalAction::Bind(name)
    }
}

/// What to do next about a buffer that the compositor has released.
#[derive(Clone, Copy, PartialEq, Eq, Structural, Debug)]
pub enum ReleaseStep {
    /// Ask whether this wallpaper, which so many hold on to, has the buffer.
    Try { index: usize, wallpaper: WallpaperId, strong_count: usize },
    /// Nothing is left to be done.
    Done,
}

/// Asking the wallpaper at `index`, if there is one.
pub open spec fn release_at<S, T, I>(d: DaemonState<S, T, I>, index: int) -> ReleaseStep {
    if index < d.wallpapers.len() {
        let id = d.wallpapers[index].id;
        ReleaseStep::Try {
            index: index as usize,
            wallpaper: id,
            strong_count: strong_count(d, id) as usize,
        }
    } else {
        ReleaseStep::Done
    }
}

/// What a buffer that the compositor has released begins with: asking the first wallpaper.
pub open spec fn release_begin<S, T, I>(d: DaemonState<S, T, I>) -> ReleaseStep {
    release_at(d, 0)
}

/// What follows when the wallpaper at `index` has told whether a buffer is its own: the next one
/// is asked unless it was.
pub open spec fn release_next<S, T, I>(
    d: DaemonState<S, T, I>,
    index: int,
    released: bool,
) -> ReleaseStep {
    if released {
        ReleaseStep::Done
    } else {
        release_at(d, index + 1)
    }
}

/// What the start of the connection has brought about.
pub struct InitState<S> {
    /// The outputs that were there, by their names in the registry, each bound.
    pub outputs: Vec<(u32, OutputBinding<S>)>,
    /// The object that makes fractional scales, if the compositor has it.
    pub fractional_scale: Option<ObjectId>,
    /// Whether fractional scales are counted on elsewhere.
    pub fractional_scale_support: bool,
    pub pixel_format: PixelFormat,
}

/// A daemon as it begins: one wallpaper for each output, and no animations.
pub open spec fn initial<S, T, I>(init: InitState<S>, no_cache: bool) -> DaemonState<S, T, I> {
    DaemonState {
        pixel_format: init.pixel_format,
        wallpapers: Seq::new(
            init.outputs@.len(),
            |i: int|
                new_wallpaper(
                    WallpaperId { serial: i as u64 },
                    init.outputs@[i].0,
                    init.outputs@[i].1,
                ),
        ),
        transitions: Seq::empty(),
        images: Seq::empty(),
        use_cache: !no_cache,
        fractional_scale_manager: init.fractional_scale,
        poll_time: PollTime::Never,
        next_serial: init.outputs@.len() as u64,
    }
}

/// Stopping keeps the daemon in order, and leaves nothing running on what was stopped.
pub proof fn lemma_stopped_wf<S, T, I>(d: DaemonState<S, T, I>, stopped: Seq<WallpaperId>)
    requires
        d.wf(),
    ensures
        stopped_animations(d, stopped).wf(),
        forall|w: WallpaperId| #[trigger]
            stopped_animations(d, stopped).animated(w) <==> d.animated(w) && !stopped.contains(w),
{
    let now = stopped_animations(d, stopped);
    lemma_stopped_exclusive(d.transitions, stopped);
    lemma_stopped_exclusive(d.images, stopped);
    assert forall|w: WallpaperId|
        !(#[trigger] drawn_on(now.transitions, w) && #[trigger] drawn_on(now.images, w)) by {
        lemma_stopped_members(d.transitions, stopped, w);
        lemma_stopped_members(d.images, stopped, w);
    }
    assert forall|w: WallpaperId| #[trigger]
        now.animated(w) <==> d.animated(w) && !stopped.contains(w) by {
        lemma_stopped_members(d.transitions, stopped, w);
        lemma_stopped_members(d.images, stopped, w);
    }
}

/// Changing a wallpaper into a sound one that is still itself keeps the daemon in order.
proof fn lemma_changed_wf<S, T, I>(
    d: DaemonState<S, T, I>,
    i: int,
    w: WallpaperState<S>,
)
    requires
        d.wf(),
        0 <= i < d.wallpapers.len(),
        w.id == d.wallpapers[i].id,
        sound(w),
    ensures
        (DaemonState { wallpapers: d.wallpapers.update(i, w), ..d }).wf(),
{
    let now = DaemonState { wallpapers: d.wallpapers.update(i, w), ..d };
    assert forall|x: WallpaperId| #[trigger] now.animated(x) implies live(now.wallpapers, x) by {
        assert(d.animated(x));
        let k = choose|k: int| 0 <= k < d.wallpapers.len() && (#[trigger] d.wallpapers[k]).id == x;
        assert(now.wallpapers[k].id == x);
    }
}

/// A wallpaper taken out, together with what draws on it, leaves the daemon in order.
proof fn lemma_removed_wf<S, T, I>(d: DaemonState<S, T, I>, i: int)
    requires
        d.wf(),
        0 <= i < d.wallpapers.len(),
    ensures
        stopped_animations(
            DaemonState { wallpapers: d.wallpapers.remove(i), ..d },
            seq![d.wallpapers[i].id],
        ).wf(),
{
    let id = d.wallpapers[i].id;
    let stopped = seq![id];
    lemma_stopped_wf(d, stopped);
    let before = stopped_animations(d, stopped);
    let now = stopped_animations(
        DaemonState { wallpapers: d.wallpapers.remove(i), ..d },
        stopped,
    );
    assert forall|x: WallpaperId| #[trigger] now.animated(x) implies live(now.wallpapers, x) by {
        assert(before.animated(x));
        assert(d.animated(x));
        assert(stopped[0] == id);
        let k = choose|k: int| 0 <= k < d.wallpapers.len() && (#[trigger] d.wallpapers[k]).id == x;
        assert(k != i);
        if k < i {
            assert(now.wallpapers[k].id == x);
        } else {
            assert(now.wallpapers[k - 1].id == x);
        }
    }
}

impl<S, T, I> Daemon<S, T, I> {
    /// A daemon with a wallpaper on each output that is there at the start.
    pub fn new(init_state: InitState<S>, no_cache: bool) -> (daemon: Daemon<S, T, I>)
        requires
            init_state.fractional_scale is Some == init_state.fractional_scale_support,
        ensures
            daemon@ == initial::<S, T, I>(init_state, no_cache),
            daemon@.wf(),
    {
        let InitState { outputs, fractional_scale, fractional_scale_support: _, pixel_format } =
            init_state;
        let mut outputs = outputs;
        let ghost all = outputs@;
        let count: usize = outputs.len();
        assert(all.len() == count);
        let mut daemon: Daemon<S, T, I> = Daemon {
            pixel_format,
            wallpapers: Vec::new(),
            transition_animators: Vec::new(),
            image_animators: Vec::new(),
            use_cache: !no_cache,
            fractional_scale_manager: fractional_scale,
            poll_time: PollTime::Never,
            next_serial: 0,
        };
        let ghost mut done: int = 0;
        assert(all.skip(0) =~= all);
        assert(daemon@.transitions =~= Seq::empty());
        assert(daemon@.images =~= Seq::empty());
        while outputs.len() > 0
            invariant
                0 <= done <= all.len(),
                outputs@ == all.skip(done),
                daemon@.next_serial == done,
                daemon@.wf(),
                daemon@.wallpapers.len() == done,
                forall|i: int|
                    0 <= i < done ==> #[trigger] daemon@.wallpapers[i] == new_wallpaper(
                        WallpaperId { serial: i as u64 },
                        all[i].0,
                        all[i].1,
                    ),
                daemon@.transitions == Seq::<AnimatorState<T>>::empty(),
                daemon@.images == Seq::<AnimatorState<I>>::empty(),
                daemon@.pixel_format == pixel_format,
                daemon@.use_cache == !no_cache,
                daemon@.fractional_scale_manager == fractional_scale,
                daemon@.poll_time == PollTime::Never,
                all.len() <= u64::MAX,
            decreases outputs@.len(),
        {
            let (output_name, binding) = outputs.remove(0);
            assert(all.skip(done)[0] == all[done]);
            let _ = daemon.new_output(output_name, binding);
            proof {
                done = done + 1;
            }
            assert(outputs@ =~= all.skip(done));
        }
        assert(daemon@.wallpapers =~= initial::<S, T, I>(init_state, no_cache).wallpapers);
        daemon
    }

    /// Puts a wallpaper on an output, which was bound by its name in the registry.
    pub fn new_output(&mut self, output_name: u32, binding: OutputBinding<S>) -> (id: WallpaperId)
        requires
            old(self)@.wf(),
            old(self)@.next_serial < u64::MAX,
        ensures
            final(self)@ == added(old(self)@, output_name, binding),
            final(self)@.wf(),
            final(self)@.wallpapers.last().id == id,
            final(self)@.wallpapers.last().has(Key::OutputName(output_name)),
            id.serial == old(self)@.next_serial,
    {
        let ghost before = self@;
        let id = WallpaperId { serial: self.next_serial };
        self.wallpapers.push(Wallpaper::new(id, output_name, binding));
        self.next_serial = self.next_serial + 1;
        proof {
            assert(self@.wallpapers =~= added(before, output_name, binding).wallpapers);
            assert forall|x: WallpaperId| #[trigger] self@.animated(x) implies live(
                self@.wallpapers,
                x,
            ) by {
                assert(before.animated(x));
                let k = choose|k: int|
                    0 <= k < before.wallpapers.len() && (#[trigger] before.wallpapers[k]).id == x;
                assert(self@.wallpapers[k].id == x);
            }
        }
        id
    }

    /// Whether there can be a wallpaper on one more output. There always can, within any lifetime.
    pub fn has_room(&self) -> (room: bool)
        ensures
            room == (self@.next_serial < u64::MAX),
    {
        self.next_serial < u64::MAX
    }

    /// Stops the animations on some wallpapers. What draws on others as well goes on there.
    pub fn stop_animations(&mut self, wallpapers: &Vec<WallpaperId>)
        requires
            old(self)@.wf(),
        ensures
            final(self)@ == stopped_animations(old(self)@, wallpapers@),
            final(self)@.wf(),
    {
        let ghost before = self@;
        stop_on(&mut self.transition_animators, wallpapers);
        stop_on(&mut self.image_animators, wallpapers);
        proof {
            lemma_stopped_wf(before, wallpapers@);
            assert(self@ == stopped_animations(before, wallpapers@));
        }
    }

    /// Where the first of the wallpapers is that `key` stands for.
    fn find(&self, key: Key) -> (found: Option<usize>)
        ensures
            match found {
                Some(i) => is_first(self@.wallpapers, key, i as int) && position(
                    self@.wallpapers,
                    key,
                ) == Some(i as int),
                None => position(self@.wallpapers, key) is None,
            },
    {
        let mut i: usize = 0;
        while i < self.wallpapers.len()
            invariant
                i <= self.wallpapers@.len(),
                forall|j: int| 0 <= j < i ==> !(#[trigger] self@.wallpapers[j]).has(key),
            decreases self.wallpapers@.len() - i,
        {
            assert(self@.wallpapers[i as int] == self.wallpapers@[i as int]@);
            if self.wallpapers[i].has(key) {
                proof {
                    lemma_position(self@.wallpapers, key, i as int);
                }
                return Some(i);
            }
            i += 1;
        }
        proof {
            lemma_no_position(self@.wallpapers, key);
        }
        None
    }

    /// The wallpaper with this identity, if the daemon has it.
    pub fn wallpaper(&self, id: WallpaperId) -> (wallpaper: Option<&Wallpaper<S>>)
        requires
            self@.wf(),
        ensures
            wallpaper is Some <==> live(self@.wallpapers, id),
            wallpaper matches Some(w) ==> self@.wallpapers.contains(w@) && w@.id == id,
    {
        match self.find(Key::Id(id)) {
            Some(i) => {
                assert(self@.wallpapers[i as int] == self.wallpapers@[i as int]@);
                Some(&self.wallpapers[i])
            },
            None => {
                proof {
                    lemma_live(self@.wallpapers, id);
                }
                None
            },
        }
    }

    /// The wallpapers that are meant by a list of names: all of them, if it is empty.
    pub fn find_wallpapers_by_names(&self, names: &Vec<String>) -> (found: Vec<WallpaperId>)
        ensures
            found@ == named(self@.wallpapers, texts(names@)),
    {
        let ghost all = self@.wallpapers;
        let ghost wanted = texts(names@);
        let ghost keep = |w: WallpaperState<S>| is_named(w, wanted);
        let ghost id_of = |w: WallpaperState<S>| w.id;
        let mut found: Vec<WallpaperId> = Vec::new();
        let mut i: usize = 0;
        assert(all.take(0).filter(keep) =~= Seq::<WallpaperState<S>>::empty()) by {
            reveal(Seq::filter);
        }
        assert(found@ =~= all.take(0).filter(keep).map_values(id_of));
        while i < self.wallpapers.len()
            invariant
                i <= self.wallpapers@.len(),
                all == self@.wallpapers,
                wanted == texts(names@),
                keep == (|w: WallpaperState<S>| is_named(w, wanted)),
                id_of == (|w: WallpaperState<S>| w.id),
                found@ == all.take(i as int).filter(keep).map_values(id_of),
            decreases self.wallpapers@.len() - i,
        {
            let ghost before = all.take(i as int).filter(keep);
            assert(all[i as int] == self.wallpapers@[i as int]@);
            if Self::is_named(&self.wallpapers[i], names) {
                found.push(self.wallpapers[i].id());
                assert(before.push(all[i as int]).map_values(id_of) =~= before.map_values(
                    id_of,
                ).push(all[i as int].id));
            }
            proof {
                lemma_filter_step(all, keep, i as int);
            }
            i += 1;
        }
        assert(all.take(i as int) =~= all);
        found
    }

    /// Whether a wallpaper is meant by a list of names.
    fn is_named(wallpaper: &Wallpaper<S>, names: &Vec<String>) -> (found: bool)
        ensures
            found == is_named(wallpaper@, texts(names@)),
    {
        if names.len() == 0 {
            return true;
        }
        let mut k: usize = 0;
        while k < names.len()
            invariant
                k <= names@.len(),
                names@.len() > 0,
                forall|j: int| 0 <= j < k ==> !wallpaper@.has_name(#[trigger] texts(names@)[j]),
            decreases names@.len() - k,
        {
            assert(texts(names@)[k as int] == names@[k as int]@);
            if wallpaper.has_name(&names[k]) {
                return true;
            }
            k += 1;
        }
        false
    }

    /// What a client is told of the wallpapers.
    pub fn wallpapers_info(&self) -> (told: Vec<BgInfo>)
        ensures
            told@.map_values(|info: BgInfo| info@) == infos(self@.wallpapers, self@.pixel_format),
    {
        let mut told: Vec<BgInfo> = Vec::new();
        let mut i: usize = 0;
        while i < self.wallpapers.len()
            invariant
                i <= self.wallpapers@.len(),
                told@.len() == i,
                forall|k: int|
                    0 <= k < i ==> (#[trigger] told@[k])@ == self@.wallpapers[k].bg_info(
                        self@.pixel_format,
                    ),
            decreases self.wallpapers@.len() - i,
        {
            told.push(self.wallpapers[i].get_bg_info(self.pixel_format));
            i += 1;
        }
        assert(told@.map_values(|info: BgInfo| info@) =~= infos(
            self@.wallpapers,
            self@.pixel_format,
        ));
        told
    }

    /// Whether every wallpaper has been set up completely.
    pub fn all_configured(&self) -> (all: bool)
        ensures
            all == forall|i: int|
                0 <= i < self@.wallpapers.len() ==> (#[trigger] self@.wallpapers[i]).configured,
    {
        let mut i: usize = 0;
        while i < self.wallpapers.len()
            invariant
                i <= self.wallpapers@.len(),
                forall|k: int| 0 <= k < i ==> (#[trigger] self@.wallpapers[k]).configured,
            decreases self.wallpapers@.len() - i,
        {
            assert(self@.wallpapers[i as int] == self.wallpapers@[i as int]@);
            if !self.wallpapers[i].is_configured() {
                return false;
            }
            i += 1;
        }
        true
    }

    /// The compositor has deleted an object: the one to forget, if there is one of that number.
    pub fn delete_id(&self, id: u32) -> (forget: Option<ObjectId>)
        ensures
            forget is None <==> id == 0,
            forget matches Some(object) ==> object@ == id,
            number_of(forget) == object_number(id),
    {
        ObjectId::new(id)
    }

    /// The registry has announced an object.
    pub fn global(&self, name: u32, interface: &str, version: u32) -> (action: GlobalAction)
        ensures
            action == global_action(name, interface@, version),
    {
        if interface.to_owned() == "wl_output".to_owned() {
            if version < MIN_OUTPUT_VERSION {
                GlobalAction::TooOld
            } else {
                GlobalAction::Bind(name)
            }
        } else {
            GlobalAction::Ignore
        }
    }

    /// Takes the first wallpaper that `key` stands for out, together with its animations.
    fn remove_first(&mut self, key: Key) -> (removed: Option<Wallpaper<S>>)
        requires
            old(self)@.wf(),
        ensures
            final(self)@ == removed_from(old(self)@, key),
            final(self)@.wf(),
            match removed {
                Some(w) => found(old(self)@.wallpapers, key) == Some(w@),
                None => found(old(self)@.wallpapers, key) is None,
            },
    {
        let ghost before = self@;
        match self.find(key) {
            Some(i) => {
                let wallpaper = self.wallpapers.remove(i);
                let mut stopped: Vec<WallpaperId> = Vec::new();
                stopped.push(wallpaper.id());
                assert(self@.wallpapers =~= before.wallpapers.remove(i as int));
                assert(stopped@ =~= seq![before.wallpapers[i as int].id]);
                proof {
                    lemma_removed_wf(before, i as int);
                }
                stop_on(&mut self.transition_animators, &stopped);
                stop_on(&mut self.image_animators, &stopped);
                Some(wallpaper)
            },
            None => None,
        }
    }

    /// The registry has withdrawn an object: if it was an output, its wallpaper goes.
    pub fn global_remove(&mut self, name: u32) -> (gone: Option<Wallpaper<S>>)
        requires
            old(self)@.wf(),
        ensures
            final(self)@ == removed_from(old(self)@, Key::OutputName(name)),
            final(self)@.wf(),
            match gone {
                Some(w) => found(old(self)@.wallpapers, Key::OutputName(name)) == Some(w@),
                None => found(old(self)@.wallpapers, Key::OutputName(name)) is None,
            },
    {
        self.remove_first(Key::OutputName(name))
    }

    /// The compositor has closed a layer surface: its wallpaper goes.
    pub fn closed(&mut self, sender: ObjectId) -> (gone: Option<Wallpaper<S>>)
        requires
            old(self)@.wf(),
        ensures
            final(self)@ == removed_from(old(self)@, Key::LayerSurface(sender)),
            final(self)@.wf(),
            match gone {
                Some(w) => found(old(self)@.wallpapers, Key::LayerSurface(sender)) == Some(w@),
                None => found(old(self)@.wallpapers, Key::LayerSurface(sender)) is None,
            },
    {
        self.remove_first(Key::LayerSurface(sender))
    }

    /// An output tells how it is turned and mirrored. What is not a way to do so is rejected.
    pub fn geometry(&mut self, sender: ObjectId, transform: i32) -> (outcome: Outcome)
        requires
            old(self)@.wf(),
        ensures
            (final(self)@, outcome) == told_transform(old(self)@, sender, transform),
            final(self)@.wf(),
    {
        let ghost before = self@;
        match self.find(Key::Output(sender)) {
            Some(i) => {
                assert(transform < 0 ==> (transform as u32) > 7) by (bit_vector);
                if transform as u32 > FLIPPED_270 {
                    Outcome::Rejected
                } else {
                    self.wallpapers[i].set_transform(transform as u32);
                    let ghost w = self.wallpapers@[i as int]@;
                    proof {
                        assert(self@.wallpapers =~= before.wallpapers.update(i as int, w));
                        lemma_changed_wf(before, i as int, w);
                    }
                    Outcome::Applied(self.wallpapers[i].id())
                }
            },
            None => Outcome::UnknownSender,
        }
    }

    /// An output tells its dimensions.
    pub fn mode(&mut self, sender: ObjectId, width: i32, height: i32) -> (outcome: Outcome)
        requires
            old(self)@.wf(),
        ensures
            (final(self)@, outcome) == told_dimensions(old(self)@, sender, width, height),
            final(self)@.wf(),
    {
        let ghost before = self@;
        match self.find(Key::Output(sender)) {
            Some(i) => {
                self.wallpapers[i].set_dimensions(width, height);
                let ghost w = self.wallpapers@[i as int]@;
                proof {
                    assert(self@.wallpapers =~= before.wallpapers.update(i as int, w));
                    lemma_changed_wf(before, i as int, w);
                }
                Outcome::Applied(self.wallpapers[i].id())
            },
            None => Outcome::UnknownSender,
        }
    }

    /// An output has told everything about itself: the wallpaper whose changes are to be
    /// committed, if there is one.
    pub fn done(&self, sender: ObjectId) -> (commit: Option<WallpaperId>)
        ensures
            commit == to_commit(self@, sender),
    {
        match self.find(Key::Output(sender)) {
            Some(i) => Some(self.wallpapers[i].id()),
            None => None,
        }
    }

    /// The changes to a surface were committed. `configured` says whether it is now set up
    /// completely, and `stop` whether the animations on it have become pointless.
    pub fn surface_committed(&mut self, id: WallpaperId, configured: bool, stop: bool)
        requires
            old(self)@.wf(),
        ensures
            final(self)@ == committed(old(self)@, id, configured, stop),
            final(self)@.wf(),
    {
        let ghost before = self@;
        proof {
            lemma_live(before.wallpapers, id);
        }
        if let Some(i) = self.find(Key::Id(id)) {
            self.wallpapers[i].set_configured(configured);
            let ghost w = self.wallpapers@[i as int]@;
            proof {
                assert(self@.wallpapers =~= before.wallpapers.update(i as int, w));
                lemma_changed_wf(before, i as int, w);
            }
            if stop {
                let mut stopped: Vec<WallpaperId> = Vec::new();
                stopped.push(id);
                assert(stopped@ =~= seq![id]);
                self.stop_animations(&stopped);
            }
        }
    }

    /// Sets the scale of the first wallpaper that `key` stands for, unless the factor is zero.
    fn rescale(&mut self, key: Key, scale: Scale) -> (outcome: Outcome)
        requires
            old(self)@.wf(),
        ensures
            (final(self)@, outcome) == applied(
                old(self)@,
                key,
                scale_factor(scale) != 0,
                |w: WallpaperState<S>| WallpaperState { scale: Some(scale), ..w },
            ),
            final(self)@.wf(),
    {
        let ghost before = self@;
        match self.find(key) {
            Some(i) => {
                let factor: i32 = match scale {
                    Scale::Whole(factor) => factor,
                    Scale::Fractional(factor) => factor,
                };
                if factor == 0 {
                    Outcome::Rejected
                } else {
                    self.wallpapers[i].set_scale(scale);
                    let ghost w = self.wallpapers@[i as int]@;
                    proof {
                        assert(self@.wallpapers =~= before.wallpapers.update(i as int, w));
                        lemma_changed_wf(before, i as int, w);
                    }
                    Outcome::Applied(self.wallpapers[i].id())
                }
            },
            None => Outcome::UnknownSender,
        }
    }

    /// An output tells the whole factor it scales by. A factor of zero is rejected.
    pub fn scale(&mut self, sender: ObjectId, factor: i32) -> (outcome: Outcome)
        requires
            old(self)@.wf(),
        ensures
            (final(self)@, outcome) == told_scale(old(self)@, sender, factor),
            final(self)@.wf(),
    {
        self.rescale(Key::Output(sender), Scale::Whole(factor))
    }

    /// The compositor tells the whole factor that is best for a surface. A factor of zero is
    /// rejected.
    pub fn preferred_buffer_scale(&mut self, sender: ObjectId, factor: i32) -> (outcome: Outcome)
        requires
            old(self)@.wf(),
        ensures
            (final(self)@, outcome) == told_buffer_scale(old(self)@, sender, factor),
            final(self)@.wf(),
    {
        self.rescale(Key::Surface(sender), Scale::Whole(factor))
    }

    /// The compositor tells the fraction that is best for a surface. A fraction of zero is
    /// rejected. Where a wallpaper was changed, the outcome asks for that change to be committed.
    pub fn preferred_scale(&mut self, sender: ObjectId, scale: u32) -> (outcome: Outcome)
        requires
            old(self)@.wf(),
        ensures
            (final(self)@, outcome) == told_fraction(old(self)@, sender, scale),
            final(self)@.wf(),
    {
        let factor: i32 = scale as i32;
        assert(factor == wrapped(scale)) by {
            assert(scale <= 0x7fff_ffffu32 ==> (scale as i32) == scale) by (bit_vector);
            assert(scale > 0x7fff_ffffu32 ==> (scale as i32) == scale - 0x1_0000_0000)
                by (bit_vector);
        }
        match self.rescale(Key::FractionalScale(sender), Scale::Fractional(factor)) {
            Outcome::Applied(id) => Outcome::Commit(id),
            outcome => outcome,
        }
    }

    /// An output tells its name.
    pub fn name(&mut self, sender: ObjectId, name: &str) -> (outcome: Outcome)
        requires
            old(self)@.wf(),
        ensures
            (final(self)@, outcome) == told_name(old(self)@, sender, name@),
            final(self)@.wf(),
    {
        let ghost before = self@;
        match self.find(Key::Output(sender)) {
            Some(i) => {
                self.wallpapers[i].set_name(name.to_owned());
                let ghost w = self.wallpapers@[i as int]@;
                proof {
                    assert(self@.wallpapers =~= before.wallpapers.update(i as int, w));
                    lemma_changed_wf(before, i as int, w);
                }
                Outcome::Applied(self.wallpapers[i].id())
            },
            None => Outcome::UnknownSender,
        }
    }

    /// An output tells its description.
    pub fn description(&mut self, sender: ObjectId, description: &str) -> (outcome: Outcome)
        requires
            old(self)@.wf(),
        ensures
            (final(self)@, outcome) == told_description(old(self)@, sender, description@),
            final(self)@.wf(),
    {
        let ghost before = self@;
        match self.find(Key::Output(sender)) {
            Some(i) => {
                self.wallpapers[i].set_desc(description.to_owned());
                let ghost w = self.wallpapers@[i as int]@;
                proof {
                    assert(self@.wallpapers =~= before.wallpapers.update(i as int, w));
                    lemma_changed_wf(before, i as int, w);
                }
                Outcome::Applied(self.wallpapers[i].id())
            },
            None => Outcome::UnknownSender,
        }
    }

    /// A layer surface was given its size: whether that is to be acknowledged.
    pub fn configure(&self, sender: ObjectId) -> (acknowledge: bool)
        ensures
            acknowledge == acknowledges(self@, sender),
    {
        self.find(Key::LayerSurface(sender)).is_some()
    }

    /// How many hold on to a wallpaper.
    fn strong_count(&self, w: WallpaperId) -> (count: usize)
        requires
            self@.wf(),
        ensures
            count == strong_count(self@, w),
            count <= 2,
    {
        proof {
            lemma_uses_of_exclusive(self@.transitions, w);
            lemma_uses_of_exclusive(self@.images, w);
        }
        1 + count_uses(&self.transition_animators, w) + count_uses(&self.image_animators, w)
    }

    /// The step that asks the wallpaper at `index`.
    fn try_release(&self, index: usize) -> (step: ReleaseStep)
        requires
            self@.wf(),
        ensures
            step == release_at(self@, index as int),
    {
        if index < self.wallpapers.len() {
            assert(self@.wallpapers[index as int] == self.wallpapers@[index as int]@);
            let wallpaper = self.wallpapers[index].id();
            ReleaseStep::Try { index, wallpaper, strong_count: self.strong_count(wallpaper) }
        } else {
            ReleaseStep::Done
        }
    }

    /// The compositor has released a buffer: the wallpapers are asked in turn whether it is
    /// theirs, beginning with the first.
    pub fn release(&self) -> (step: ReleaseStep)
        requires
            self@.wf(),
        ensures
            step == release_begin(self@),
    {
        self.try_release(0)
    }

    /// The wallpaper at `index` was asked whether a buffer is its own. The next one is asked
    /// unless it was.
    pub fn release_tried(&self, index: usize, released: bool) -> (step: ReleaseStep)
        requires
            self@.wf(),
        ensures
            step == release_next(self@, index as int, released),
    {
        if released || index >= self.wallpapers.len() {
            ReleaseStep::Done
        } else {
            self.try_release(index + 1)
        }
    }

    /// A frame of a wallpaper was handed to the compositor, which answers with `callback`.
    pub fn frame_requested(&mut self, id: WallpaperId, callback: ObjectId)
        requires
            old(self)@.wf(),
        ensures
            final(self)@ == awaiting(old(self)@, id, callback),
            final(self)@.wf(),
    {
        let ghost before = self@;
        if let Some(i) = self.find(Key::Id(id)) {
            self.wallpapers[i].frame_requested(callback);
            let ghost w = self.wallpapers@[i as int]@;
            proof {
                assert(self@.wallpapers =~= before.wallpapers.update(i as int, w));
                lemma_changed_wf(before, i as int, w);
            }
        }
    }

    /// What fills a wallpaper is now something else.
    pub fn set_img_info(&mut self, id: WallpaperId, img: BgImg)
        requires
            old(self)@.wf(),
        ensures
            final(self)@ == filled(old(self)@, id, img@),
            final(self)@.wf(),
    {
        let ghost before = self@;
        if let Some(i) = self.find(Key::Id(id)) {
            self.wallpapers[i].set_img_info(img);
            let ghost w = self.wallpapers@[i as int]@;
            proof {
                assert(self@.wallpapers =~= before.wallpapers.update(i as int, w));
                lemma_changed_wf(before, i as int, w);
            }
        }
    }

    /// The wallpapers, one for each output.
    pub fn wallpapers(&self) -> (wallpapers: &Vec<Wallpaper<S>>)
        ensures
            wallpaper_states(wallpapers@) == self@.wallpapers,
    {
        &self.wallpapers
    }

    /// The transitions.
    pub fn transition_animators(&self) -> (animators: &Vec<Animator<T>>)
        ensures
            states(animators@) == self@.transitions,
    {
        &self.transition_animators
    }

    /// The animated images.
    pub fn image_animators(&self) -> (animators: &Vec<Animator<I>>)
        ensures
            states(animators@) == self@.images,
    {
        &self.image_animators
    }

    /// How long to wait before drawing again.
    pub fn poll_time(&self) -> (time: PollTime)
        ensures
            time == self@.poll_time,
    {
        self.poll_time
    }

    /// Whether images may be taken from the cache.
    pub fn use_cache(&self) -> (cache: bool)
        ensures
            cache == self@.use_cache,
    {
        self.use_cache
    }

    /// The layout of pixels.
    pub fn pixel_format(&self) -> (format: PixelFormat)
        ensures
            format == self@.pixel_format,
    {
        self.pixel_format
    }

    /// The object that makes fractional scales, if the compositor has it.
    pub fn fractional_scale_manager(&self) -> (manager: Option<ObjectId>)
        ensures
            manager == self@.fractional_scale_manager,
    {
        self.fractional_scale_manager
    }
}

} // verus!
