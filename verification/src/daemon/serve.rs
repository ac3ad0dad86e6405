//! Serving clients: what they ask for, what the daemon does about it, and what they are answered.

use vstd::prelude::*;

use super::draw::{lemma_exclusive_push, lemma_same_lists};
use super::{
    filled, infos, lemma_stopped_wf, live, named, sound, stopped_animations, texts, Daemon,
    DaemonState,
};
use crate::animator::{contains, drawn_on, Animator, AnimatorState};
use crate::exit::{exit_daemon, ExitFlag};
use crate::poll::PollTime;
use crate::seqs::{lemma_filter_is_from, lemma_filter_keeps_pairs};
use crate::wallpaper::{
    BgImg, BgImgState, BgInfo, BgInfoState, WallpaperId, WallpaperState,
};

verus! {

/// A request for images. Each image goes, by a transition, to the outputs that the list of names
/// at the same place, counted from the end, means. What an image goes on to do, where it is
/// animated, is at the same place in `animations`, counted from the end too.
pub struct ImageReq<X, G, A> {
    /// How the transitions go.
    pub transition: X,
    pub imgs: Vec<G>,
    pub outputs: Vec<Vec<String>>,
    pub animations: Option<Vec<A>>,
}

/// The model of a request for images.
#[verifier::ext_equal]
pub struct ImageReqState<X, G, A> {
    pub transition: X,
    pub imgs: Seq<G>,
    pub outputs: Seq<Seq<Seq<char>>>,
    pub animations: Option<Seq<A>>,
}

impl<X, G, A> View for ImageReq<X, G, A> {
    type V = ImageReqState<X, G, A>;

    open spec fn view(&self) -> ImageReqState<X, G, A> {
        ImageReqState {
            transition: self.transition,
            imgs: self.imgs@,
            outputs: self.outputs@.map_values(|names: Vec<String>| texts(names@)),
            animations: match self.animations {
                Some(animations) => Some(animations@),
                None => None,
            },
        }
    }
}

/// What a client can ask for.
pub enum Request<X, G, A> {
    /// Fill the outputs that the names mean with a color.
    Clear { color: [u8; 3], outputs: Vec<String> },
    /// Tell whether everything is set up.
    Ping,
    /// Stop the daemon.
    Kill,
    /// Tell what is on the outputs.
    Query,
    /// Put images on outputs.
    Img(ImageReq<X, G, A>),
}

/// What a client is answered.
#[derive(PartialEq, Eq, Debug)]
pub enum Answer {
    /// What was asked for has been done.
    Done,
    /// Whether everything is set up.
    Ping(bool),
    /// What is on the outputs.
    Info(Vec<BgInfo>),
}

/// The model of an answer.
pub enum AnswerState {
    Done,
    Ping(bool),
    Info(Seq<BgInfoState>),
}

impl View for Answer {
    type V = AnswerState;

    open spec fn view(&self) -> AnswerState {
        match *self {
            Answer::Done => AnswerState::Done,
            Answer::Ping(configured) => AnswerState::Ping(configured),
            Answer::Info(infos) => AnswerState::Info(infos@.map_values(|info: BgInfo| info@)),
        }
    }
}

/// A request for images that has stopped at one of them.
pub struct Pending<S, T, I, X, G, A> {
    daemon: Daemon<S, T, I>,
    rest: ImageReq<X, G, A>,
    wallpapers: Vec<WallpaperId>,
}

/// What has come of a request, or what it needs in order to go on.
pub enum Served<S, T, I, X, G, A> {
    /// It could not be read: there is nothing to answer.
    Silent(Daemon<S, T, I>),
    /// It is to be answered.
    Reply { daemon: Daemon<S, T, I>, answer: Answer },
    /// These wallpapers are to be filled with the color; then it is to be answered.
    Clear { daemon: Daemon<S, T, I>, wallpapers: Vec<WallpaperId>, color: [u8; 3], answer: Answer },
    /// A transition to the image is to be made up; the first frame of it is to be drawn.
    Transition { pending: Pending<S, T, I, X, G, A>, img: G, animation: Option<A> },
}

/// The model of what has come of a request.
pub enum ServedState<S, T, I, X, G, A> {
    Silent { daemon: DaemonState<S, T, I> },
    Reply { daemon: DaemonState<S, T, I>, answer: AnswerState },
    Clear {
        daemon: DaemonState<S, T, I>,
        wallpapers: Seq<WallpaperId>,
        color: [u8; 3],
        answer: AnswerState,
    },
    Transition {
        daemon: DaemonState<S, T, I>,
        rest: ImageReqState<X, G, A>,
        wallpapers: Seq<WallpaperId>,
        img: G,
        animation: Option<A>,
    },
}

impl<S, T, I, X, G, A> View for Served<S, T, I, X, G, A> {
    type V = ServedState<S, T, I, X, G, A>;

    open spec fn view(&self) -> ServedState<S, T, I, X, G, A> {
        match *self {
            Served::Silent(daemon) => ServedState::Silent { daemon: daemon@ },
            Served::Reply { daemon, answer } => ServedState::Reply {
                daemon: daemon@,
                answer: answer@,
            },
            Served::Clear { daemon, wallpapers, color, answer } => ServedState::Clear {
                daemon: daemon@,
                wallpapers: wallpapers@,
                color,
                answer: answer@,
            },
            Served::Transition { pending, img, animation } => ServedState::Transition {
                daemon: pending.state(),
                rest: pending.left(),
                wallpapers: pending.selected(),
                img,
                animation,
            },
        }
    }
}

/// What is last in a list that may be missing or empty.
pub open spec fn last_of<A>(list: Option<Seq<A>>) -> Option<A> {
    match list {
        Some(list) if list.len() > 0 => Some(list.last()),
        _ => None,
    }
}

/// A list that may be missing or empty, without what is last in it.
pub open spec fn all_but_last<A>(list: Option<Seq<A>>) -> Option<Seq<A>> {
    match list {
        Some(list) if list.len() > 0 => Some(list.drop_last()),
        _ => list,
    }
}

/// The last image of a request is begun on the outputs that the last list of names means, where
/// all animations stop. When images or lists of names have run out, the request is answered, and
/// the transitions are to be drawn at once.
pub open spec fn next_image<S, T, I, X, G, A>(
    d: DaemonState<S, T, I>,
    req: ImageReqState<X, G, A>,
) -> ServedState<S, T, I, X, G, A> {
    if req.imgs.len() == 0 || req.outputs.len() == 0 {
        ServedState::Reply {
            daemon: DaemonState { poll_time: PollTime::Instant, ..d },
            answer: AnswerState::Done,
        }
    } else {
        let wallpapers = named(d.wallpapers, req.outputs.last());
        ServedState::Transition {
            daemon: stopped_animations(d, wallpapers),
            rest: ImageReqState {
                transition: req.transition,
                imgs: req.imgs.drop_last(),
                outputs: req.outputs.drop_last(),
                animations: all_but_last(req.animations),
            },
            wallpapers,
            img: req.imgs.last(),
            animation: last_of(req.animations),
        }
    }
}

/// The daemon when a transition, if it came about, has begun.
pub open spec fn begun<S, T, I>(
    d: DaemonState<S, T, I>,
    wallpapers: Seq<WallpaperId>,
    effect: Option<T>,
) -> DaemonState<S, T, I> {
    match effect {
        Some(effect) => DaemonState {
            transitions: d.transitions.push(AnimatorState { wallpapers, effect }),
            ..d
        },
        None => d,
    }
}

/// A request for images goes on to its next image when a transition has begun, or has not come
/// about.
pub open spec fn resumed<S, T, I, X, G, A>(
    d: DaemonState<S, T, I>,
    wallpapers: Seq<WallpaperId>,
    effect: Option<T>,
    rest: ImageReqState<X, G, A>,
) -> ServedState<S, T, I, X, G, A> {
    next_image(begun(d, wallpapers, effect), rest)
}

/// A wallpaper on which a color is now, if it is one of those meant.
pub open spec fn colored<S>(
    w: WallpaperState<S>,
    wallpapers: Seq<WallpaperId>,
    color: [u8; 3],
) -> WallpaperState<S> {
    if wallpapers.contains(w.id) {
        WallpaperState { img: Some(BgImgState::Color(color)), ..w }
    } else {
        w
    }
}

/// The daemon when some wallpapers have been cleared: nothing is animated on them any more, and
/// they show the color.
pub open spec fn cleared<S, T, I>(
    d: DaemonState<S, T, I>,
    wallpapers: Seq<WallpaperId>,
    color: [u8; 3],
) -> DaemonState<S, T, I> {
    let stopped = stopped_animations(d, wallpapers);
    DaemonState {
        wallpapers: stopped.wallpapers.map_values(
            |w: WallpaperState<S>| colored(w, wallpapers, color),
        ),
        ..stopped
    }
}

/// Whether every wallpaper has been set up completely.
pub open spec fn configured<S>(wallpapers: Seq<WallpaperState<S>>) -> bool {
    forall|i: int| 0 <= i < wallpapers.len() ==> (#[trigger] wallpapers[i]).configured
}

/// Whether a request stops the daemon: one to do so does, and so does one that could not be read.
pub open spec fn asks_to_stop<X, G, A>(request: Option<Request<X, G, A>>) -> bool {
    request is None || request == Some(Request::<X, G, A>::Kill)
}

/// What comes of a request. There is none where it could not be read.
pub open spec fn served<S, T, I, X, G, A>(
    d: DaemonState<S, T, I>,
    request: Option<Request<X, G, A>>,
) -> ServedState<S, T, I, X, G, A> {
    match request {
        None => ServedState::Silent { daemon: d },
        Some(Request::Clear { color, outputs }) => {
            let wallpapers = named(d.wallpapers, texts(outputs@));
            ServedState::Clear {
                daemon: cleared(d, wallpapers, color),
                wallpapers,
                color,
                answer: AnswerState::Done,
            }
        },
        Some(Request::Ping) => ServedState::Reply {
            daemon: d,
            answer: AnswerState::Ping(configured(d.wallpapers)),
        },
        Some(Request::Kill) => ServedState::Reply { daemon: d, answer: AnswerState::Done },
        Some(Request::Query) => ServedState::Reply {
            daemon: d,
            answer: AnswerState::Info(infos(d.wallpapers, d.pixel_format)),
        },
        Some(Request::Img(req)) => next_image(d, req@),
    }
}

impl<S, T, I, X, G, A> ServedState<S, T, I, X, G, A> {
    /// The daemon, as the request has left it so far.
    pub open spec fn daemon(self) -> DaemonState<S, T, I> {
        match self {
            ServedState::Silent { daemon } => daemon,
            ServedState::Reply { daemon, .. } => daemon,
            ServedState::Clear { daemon, .. } => daemon,
            ServedState::Transition { daemon, .. } => daemon,
        }
    }

    /// What always holds while a request is served: the daemon is in order, and a transition that
    /// may begin is on wallpapers that are there and that nothing draws on.
    pub open spec fn wf(self) -> bool {
        &&& self.daemon().wf()
        &&& match self {
            ServedState::Transition { daemon, wallpapers, .. } => free(daemon, wallpapers),
            _ => true,
        }
    }
}

/// Whether an animation may begin on the wallpapers: each is there, and nothing draws on it.
pub open spec fn free<S, T, I>(d: DaemonState<S, T, I>, wallpapers: Seq<WallpaperId>) -> bool {
    &&& wallpapers.no_duplicates()
    &&& forall|w: WallpaperId| #[trigger]
        wallpapers.contains(w) ==> live(d.wallpapers, w) && !d.animated(w)
}

/// The wallpapers that names mean are there, and none is meant twice.
pub proof fn lemma_named<S, T, I>(d: DaemonState<S, T, I>, names: Seq<Seq<char>>)
    requires
        d.wf(),
    ensures
        named(d.wallpapers, names).no_duplicates(),
        forall|w: WallpaperId| #[trigger]
            named(d.wallpapers, names).contains(w) ==> live(d.wallpapers, w),
{
    let keep = |w: WallpaperState<S>| super::is_named(w, names);
    let apart = |a: WallpaperState<S>, b: WallpaperState<S>| a.id != b.id;
    let all = d.wallpapers;
    let kept = all.filter(keep);
    let ids = named(all, names);
    assert forall|i: int, j: int| 0 <= i < j < all.len() implies #[trigger] apart(
        all[i],
        all[j],
    ) by {}
    lemma_filter_keeps_pairs(all, keep, apart);
    assert forall|i: int, j: int| 0 <= i < ids.len() && 0 <= j < ids.len() && i != j implies ids[i]
        != ids[j] by {
        if i < j {
            assert(apart(kept[i], kept[j]));
        } else {
            assert(apart(kept[j], kept[i]));
        }
    }
    assert forall|w: WallpaperId| #[trigger] ids.contains(w) implies live(all, w) by {
        let k = choose|k: int| 0 <= k < ids.len() && ids[k] == w;
        lemma_filter_is_from(all, keep, k);
        let i = choose|i: int| 0 <= i < all.len() && all[i] == kept[k];
        assert(all[i].id == w);
    }
}

/// Where all animations on wallpapers that names mean are stopped, one may begin.
pub proof fn lemma_selected<S, T, I>(d: DaemonState<S, T, I>, names: Seq<Seq<char>>)
    requires
        d.wf(),
    ensures
        stopped_animations(d, named(d.wallpapers, names)).wf(),
        free(
            stopped_animations(d, named(d.wallpapers, names)),
            named(d.wallpapers, names),
        ),
{
    let wallpapers = named(d.wallpapers, names);
    let now = stopped_animations(d, wallpapers);
    lemma_named(d, names);
    lemma_stopped_wf(d, wallpapers);
    assert forall|w: WallpaperId| #[trigger] wallpapers.contains(w) implies live(
        now.wallpapers,
        w,
    ) && !now.animated(w) by {}
}

/// A transition that begins where one may leaves the daemon in order.
pub proof fn lemma_begun_wf<S, T, I>(
    d: DaemonState<S, T, I>,
    wallpapers: Seq<WallpaperId>,
    effect: Option<T>,
)
    requires
        d.wf(),
        free(d, wallpapers),
    ensures
        begun(d, wallpapers, effect).wf(),
{
    if let Some(effect) = effect {
        let more = AnimatorState { wallpapers, effect };
        let now = begun(d, wallpapers, Some(effect));
        assert forall|w: WallpaperId| #[trigger] more.wallpapers.contains(w) implies !drawn_on(
            d.transitions,
            w,
        ) by {
            assert(!d.animated(w));
        }
        lemma_exclusive_push(d.transitions, more);
        assert forall|w: WallpaperId|
            !(#[trigger] drawn_on(now.transitions, w) && #[trigger] drawn_on(now.images, w)) by {
            if more.wallpapers.contains(w) {
                assert(!d.animated(w));
            }
        }
        assert forall|w: WallpaperId| #[trigger] now.animated(w) implies live(
            now.wallpapers,
            w,
        ) by {
            if !more.wallpapers.contains(w) {
                assert(d.animated(w));
            }
        }
    }
}

impl<S, T, I> Daemon<S, T, I> {
    /// Serves a client. `request` is what it asks for, or nothing if that could not be read, which
    /// stops the daemon.
    pub fn recv_socket_msg<X, G, A>(
        self,
        request: Option<Request<X, G, A>>,
        exit: &mut ExitFlag,
    ) -> (done: Served<S, T, I, X, G, A>)
        requires
            self@.wf(),
        ensures
            done@ == served(self@, request),
            done@.wf(),
            final(exit)@ == (old(exit)@ || asks_to_stop(request)),
    {
        match request {
            None => {
                exit_daemon(exit);
                Served::Silent(self)
            },
            Some(Request::Clear { color, outputs }) => {
                let wallpapers = self.find_wallpapers_by_names(&outputs);
                let mut daemon = self;
                daemon.stop_animations(&wallpapers);
                daemon.show_color(&wallpapers, color);
                Served::Clear { daemon, wallpapers, color, answer: Answer::Done }
            },
            Some(Request::Ping) => {
                let configured = self.all_configured();
                Served::Reply { daemon: self, answer: Answer::Ping(configured) }
            },
            Some(Request::Kill) => {
                exit_daemon(exit);
                Served::Reply { daemon: self, answer: Answer::Done }
            },
            Some(Request::Query) => {
                let infos = self.wallpapers_info();
                Served::Reply { daemon: self, answer: Answer::Info(infos) }
            },
            Some(Request::Img(req)) => self.next_image(req),
        }
    }

    /// Notes that some wallpapers show a color.
    fn show_color(&mut self, wallpapers: &Vec<WallpaperId>, color: [u8; 3])
        requires
            old(self)@.wf(),
        ensures
            final(self)@ == (DaemonState {
                wallpapers: old(self)@.wallpapers.map_values(
                    |w: WallpaperState<S>| colored(w, wallpapers@, color),
                ),
                ..old(self)@
            }),
            final(self)@.wf(),
    {
        let ghost before = self@;
        let ghost after = before.wallpapers.map_values(
            |w: WallpaperState<S>| colored(w, wallpapers@, color),
        );
        let mut i: usize = 0;
        while i < self.wallpapers.len()
            invariant
                i <= self.wallpapers@.len(),
                self@.wallpapers.len() == before.wallpapers.len(),
                self@ == (DaemonState { wallpapers: self@.wallpapers, ..before }),
                after == before.wallpapers.map_values(
                    |w: WallpaperState<S>| colored(w, wallpapers@, color),
                ),
                forall|k: int| 0 <= k < i ==> #[trigger] self@.wallpapers[k] == after[k],
                forall|k: int|
                    i <= k < before.wallpapers.len() ==> #[trigger] self@.wallpapers[k]
                        == before.wallpapers[k],
            decreases self.wallpapers@.len() - i,
        {
            let ghost now = self@.wallpapers;
            assert(now[i as int] == self.wallpapers@[i as int]@);
            if contains(wallpapers, self.wallpapers[i].id()) {
                self.wallpapers[i].set_img_info(BgImg::Color(color));
                assert(self@.wallpapers =~= now.update(i as int, after[i as int]));
            }
            i += 1;
        }
        assert(self@.wallpapers =~= after);
        proof {
            assert forall|w: WallpaperId| #[trigger] self@.animated(w) implies live(
                self@.wallpapers,
                w,
            ) by {
                assert(before.animated(w));
                let k = choose|k: int|
                    0 <= k < before.wallpapers.len() && (#[trigger] before.wallpapers[k]).id == w;
                assert(self@.wallpapers[k].id == w);
            }
            assert forall|k: int| 0 <= k < after.len() implies sound(#[trigger] after[k]) by {
                assert(sound(before.wallpapers[k]));
            }
        }
    }

    /// Goes on to the next image of a request.
    fn next_image<X, G, A>(
        self,
        request: ImageReq<X, G, A>,
    ) -> (done: Served<S, T, I, X, G, A>)
        requires
            self@.wf(),
        ensures
            done@ == next_image(self@, request@),
            done@.wf(),
    {
        let mut daemon = self;
        let ImageReq { transition, imgs, outputs, animations } = request;
        let mut imgs = imgs;
        let mut outputs = outputs;
        let mut animations = animations;
        if imgs.len() == 0 || outputs.len() == 0 {
            daemon.poll_time = PollTime::Instant;
            proof {
                lemma_same_lists(self@, daemon@);
            }
            return Served::Reply { daemon, answer: Answer::Done };
        }
        match (outputs.pop(), imgs.pop()) {
            (Some(names), Some(img)) => {
                let animation = match &mut animations {
                    Some(animations) => animations.pop(),
                    None => None,
                };
                let wallpapers = daemon.find_wallpapers_by_names(&names);
                proof {
                    lemma_selected(daemon@, texts(names@));
                }
                daemon.stop_animations(&wallpapers);
                let rest = ImageReq { transition, imgs, outputs, animations };
                assert(rest@.outputs =~= request@.outputs.drop_last());
                assert(rest@.imgs =~= request@.imgs.drop_last());
                assert(rest@.animations == all_but_last(request@.animations));
                Served::Transition { pending: Pending { daemon, rest, wallpapers }, img, animation }
            },
            _ => Served::Silent(daemon),
        }
    }
}

impl<S, T, I, X, G, A> Pending<S, T, I, X, G, A> {
    /// The daemon, as the request has left it so far.
    pub closed spec fn state(&self) -> DaemonState<S, T, I> {
        self.daemon@
    }

    /// What is left of the request.
    pub closed spec fn left(&self) -> ImageReqState<X, G, A> {
        self.rest@
    }

    /// The wallpapers that the transition is to be on.
    pub closed spec fn selected(&self) -> Seq<WallpaperId> {
        self.wallpapers@
    }

    /// What always holds of a request that has stopped at an image.
    pub open spec fn wf(&self) -> bool {
        self.state().wf() && free(self.state(), self.selected())
    }

    /// The daemon, to look things up in.
    pub fn daemon(&self) -> (daemon: &Daemon<S, T, I>)
        ensures
            daemon@ == self.state(),
    {
        &self.daemon
    }

    /// How the transition goes.
    pub fn transition(&self) -> (transition: &X)
        ensures
            *transition == self.left().transition,
    {
        &self.rest.transition
    }

    /// The wallpapers that the transition is to be on.
    pub fn wallpapers(&self) -> (wallpapers: &Vec<WallpaperId>)
        ensures
            wallpapers@ == self.selected(),
    {
        &self.wallpapers
    }

    /// What fills a wallpaper is now something else.
    pub fn set_img_info(&mut self, id: WallpaperId, img: BgImg)
        requires
            old(self).wf(),
        ensures
            final(self).state() == filled(old(self).state(), id, img@),
            final(self).left() == old(self).left(),
            final(self).selected() == old(self).selected(),
            final(self).wf(),
    {
        let ghost before = self.daemon@;
        self.daemon.set_img_info(id, img);
        proof {
            let now = self.daemon@;
            assert forall|w: WallpaperId| #[trigger] self.wallpapers@.contains(w) implies live(
                now.wallpapers,
                w,
            ) && !now.animated(w) by {
                assert(!before.animated(w));
                let k = choose|k: int|
                    0 <= k < before.wallpapers.len() && (#[trigger] before.wallpapers[k]).id == w;
                assert(now.wallpapers[k].id == w);
            }
        }
    }

    /// The transition has begun, unless it did not come about.
    pub fn started(self, effect: Option<T>) -> (done: Served<S, T, I, X, G, A>)
        requires
            self.wf(),
        ensures
            done@ == resumed(self.state(), self.selected(), effect, self.left()),
            done@.wf(),
    {
        let Pending { daemon, rest, wallpapers } = self;
        let mut daemon = daemon;
        let ghost before = daemon@;
        proof {
            lemma_begun_wf(before, wallpapers@, effect);
        }
        if let Some(effect) = effect {
            let ghost more = AnimatorState { wallpapers: wallpapers@, effect };
            daemon.transition_animators.push(Animator::new(wallpapers, effect));
            assert(daemon@.transitions =~= before.transitions.push(more));
        }
        daemon.next_image(rest)
    }
}

} // verus!
