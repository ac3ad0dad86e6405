//! What the daemon knows of one output and of the wallpaper on it.

use vstd::prelude::*;

use crate::objects::ObjectId;

verus! {

/// Tells one wallpaper from every other that the daemon ever has. Two wallpapers are the same
/// where this is: that nothing else about them is compared is a choice made here.
#[derive(Clone, Copy, PartialEq, Eq, Structural, Debug)]
pub struct WallpaperId {
    pub serial: u64,
}

/// The layout of a pixel in the buffers shared with the compositor.
#[derive(Clone, Copy, PartialEq, Eq, Structural, Debug)]
pub enum PixelFormat {
    Bgr,
    Rgb,
    Xbgr,
    Xrgb,
}

/// How an output scales: by a whole factor, or by a fraction in units of the protocol.
/// The factor is never zero.
#[derive(Clone, Copy, PartialEq, Eq, Structural, Debug)]
pub enum Scale {
    Whole(i32),
    Fractional(i32),
}

/// The factor, of either kind.
pub open spec fn scale_factor(scale: Scale) -> i32 {
    match scale {
        Scale::Whole(factor) => factor,
        Scale::Fractional(factor) => factor,
    }
}

/// What fills a wallpaper.
#[derive(PartialEq, Eq, Debug)]
pub enum BgImg {
    Color([u8; 3]),
    Img(String),
}

/// What fills a wallpaper, with the path as its characters.
pub enum BgImgState {
    Color([u8; 3]),
    Img(Seq<char>),
}

impl View for BgImg {
    type V = BgImgState;

    open spec fn view(&self) -> BgImgState {
        match *self {
            BgImg::Color(color) => BgImgState::Color(color),
            BgImg::Img(path) => BgImgState::Img(path@),
        }
    }
}

impl BgImg {
    fn duplicate(&self) -> (copy: BgImg)
        ensures
            copy@ == self@,
    {
        match self {
            BgImg::Color(color) => BgImg::Color(*color),
            BgImg::Img(path) => BgImg::Img(path.clone()),
        }
    }
}

/// The characters of a text that may be missing.
pub open spec fn text(s: Option<String>) -> Option<Seq<char>> {
    match s {
        Some(s) => Some(s@),
        None => None,
    }
}

/// The image that may be missing.
pub open spec fn image(img: Option<BgImg>) -> Option<BgImgState> {
    match img {
        Some(img) => Some(img@),
        None => None,
    }
}

/// What a client is told of one wallpaper. What the compositor has not announced yet is missing.
#[derive(PartialEq, Eq, Debug)]
pub struct BgInfo {
    pub name: Option<String>,
    pub dimensions: Option<(i32, i32)>,
    pub scale: Option<Scale>,
    pub img: Option<BgImg>,
    pub pixel_format: PixelFormat,
}

/// What a client is told of one wallpaper, with texts as their characters.
pub struct BgInfoState {
    pub name: Option<Seq<char>>,
    pub dimensions: Option<(i32, i32)>,
    pub scale: Option<Scale>,
    pub img: Option<BgImgState>,
    pub pixel_format: PixelFormat,
}

impl View for BgInfo {
    type V = BgInfoState;

    open spec fn view(&self) -> BgInfoState {
        BgInfoState {
            name: text(self.name),
            dimensions: self.dimensions,
            scale: self.scale,
            img: image(self.img),
            pixel_format: self.pixel_format,
        }
    }
}

/// What the compositor connection has set up for one output: the objects made for it, the state
/// they are in, and the resources `S` that drawing on it takes.
pub struct OutputBinding<S> {
    pub output: ObjectId,
    pub surface: ObjectId,
    pub layer_surface: ObjectId,
    pub fractional_scale: Option<ObjectId>,
    pub callback: Option<ObjectId>,
    pub draw_ready: bool,
    pub configured: bool,
    pub resources: S,
}

/// By what a wallpaper is looked up.
#[derive(Clone, Copy, PartialEq, Eq, Structural, Debug)]
pub enum Key {
    Id(WallpaperId),
    OutputName(u32),
    Output(ObjectId),
    Surface(ObjectId),
    LayerSurface(ObjectId),
    FractionalScale(ObjectId),
    Callback(ObjectId),
}

/// One output and the wallpaper on it.
pub struct Wallpaper<S> {
    id: WallpaperId,
    output_name: u32,
    output: ObjectId,
    surface: ObjectId,
    layer_surface: ObjectId,
    fractional_scale: Option<ObjectId>,
    callback: Option<ObjectId>,
    draw_ready: bool,
    configured: bool,
    name: Option<String>,
    desc: Option<String>,
    dimensions: Option<(i32, i32)>,
    transform: Option<u32>,
    scale: Option<Scale>,
    img: Option<BgImg>,
    resources: S,
}

/// The model of a wallpaper: its fields, with texts as their characters.
pub struct WallpaperState<S> {
    pub id: WallpaperId,
    pub output_name: u32,
    pub output: ObjectId,
    pub surface: ObjectId,
    pub layer_surface: ObjectId,
    pub fractional_scale: Option<ObjectId>,
    /// The frame callback that was asked for last.
    pub callback: Option<ObjectId>,
    /// Whether a new frame may be drawn, that is, no frame callback is being waited for.
    pub draw_ready: bool,
    /// Whether the surface has been set up completely.
    pub configured: bool,
    pub name: Option<Seq<char>>,
    pub desc: Option<Seq<char>>,
    pub dimensions: Option<(i32, i32)>,
    pub transform: Option<u32>,
    pub scale: Option<Scale>,
    pub img: Option<BgImgState>,
    pub resources: S,
}

impl<S> WallpaperState<S> {
    /// Whether the wallpaper is what `key` stands for.
    pub open spec fn has(self, key: Key) -> bool {
        match key {
            Key::Id(id) => self.id == id,
            Key::OutputName(name) => self.output_name == name,
            Key::Output(object) => self.output == object,
            Key::Surface(object) => self.surface == object,
            Key::LayerSurface(object) => self.layer_surface == object,
            Key::FractionalScale(object) => self.fractional_scale == Some(object),
            Key::Callback(object) => self.callback == Some(object),
        }
    }

    /// Whether the output is known by this name. A name counts from the moment it is announced,
    /// not only once the changes that it was announced with are committed: that is a choice made
    /// here.
    pub open spec fn has_name(self, name: Seq<char>) -> bool {
        self.name == Some(name)
    }

    /// What a client is told of the wallpaper: what was announced last, committed or not. That is
    /// a choice made here.
    pub open spec fn bg_info(self, pixel_format: PixelFormat) -> BgInfoState {
        BgInfoState {
            name: self.name,
            dimensions: self.dimensions,
            scale: self.scale,
            img: self.img,
            pixel_format,
        }
    }
}

/// A wallpaper on an output that was just bound, by its name in the registry: nothing has been
/// announced of it.
pub open spec fn new_wallpaper<S>(
    id: WallpaperId,
    output_name: u32,
    binding: OutputBinding<S>,
) -> WallpaperState<S> {
    WallpaperState {
        id,
        output_name,
        output: binding.output,
        surface: binding.surface,
        layer_surface: binding.layer_surface,
        fractional_scale: binding.fractional_scale,
        callback: binding.callback,
        draw_ready: binding.draw_ready,
        configured: binding.configured,
        name: None,
        desc: None,
        dimensions: None,
        transform: None,
        scale: None,
        img: None,
        resources: binding.resources,
    }
}

impl<S> View for Wallpaper<S> {
    type V = WallpaperState<S>;

    closed spec fn view(&self) -> WallpaperState<S> {
        WallpaperState {
            id: self.id,
            output_name: self.output_name,
            output: self.output,
            surface: self.surface,
            layer_surface: self.layer_surface,
            fractional_scale: self.fractional_scale,
            callback: self.callback,
            draw_ready: self.draw_ready,
            configured: self.configured,
            name: text(self.name),
            desc: text(self.desc),
            dimensions: self.dimensions,
            transform: self.transform,
            scale: self.scale,
            img: image(self.img),
            resources: self.resources,
        }
    }
}

impl<S> Wallpaper<S> {
    /// A wallpaper on an output that was just bound, by its name in the registry.
    pub fn new(
        id: WallpaperId,
        output_name: u32,
        binding: OutputBinding<S>,
    ) -> (wallpaper: Wallpaper<S>)
        ensures
            wallpaper@ == new_wallpaper(id, output_name, binding),
    {
        Wallpaper {
            id,
            output_name,
            output: binding.output,
            surface: binding.surface,
            layer_surface: binding.layer_surface,
            fractional_scale: binding.fractional_scale,
            callback: binding.callback,
            draw_ready: binding.draw_ready,
            configured: binding.configured,
            name: None,
            desc: None,
            dimensions: None,
            transform: None,
            scale: None,
            img: None,
            resources: binding.resources,
        }
    }

    /// Which wallpaper this is.
    pub fn id(&self) -> (id: WallpaperId)
        ensures
            id == self@.id,
    {
        self.id
    }

    /// Whether a new frame may be drawn.
    pub fn is_draw_ready(&self) -> (ready: bool)
        ensures
            ready == self@.draw_ready,
    {
        self.draw_ready
    }

    /// Whether the surface has been set up completely.
    pub fn is_configured(&self) -> (configured: bool)
        ensures
            configured == self@.configured,
    {
        self.configured
    }

    /// Whether the wallpaper is what `key` stands for.
    pub fn has(&self, key: Key) -> (found: bool)
        ensures
            found == self@.has(key),
    {
        match key {
            Key::Id(id) => self.id == id,
            Key::OutputName(name) => self.output_name == name,
            Key::Output(object) => self.output == object,
            Key::Surface(object) => self.surface == object,
            Key::LayerSurface(object) => self.layer_surface == object,
            Key::FractionalScale(object) => match self.fractional_scale {
                Some(own) => own == object,
                None => false,
            },
            Key::Callback(object) => match self.callback {
                Some(own) => own == object,
                None => false,
            },
        }
    }

    /// Whether the output is known by this name.
    pub fn has_name(&self, name: &String) -> (known: bool)
        ensures
            known == self@.has_name(name@),
    {
        match &self.name {
            Some(own) => *own == *name,
            None => false,
        }
    }

    /// What a client is told of the wallpaper.
    pub fn get_bg_info(&self, pixel_format: PixelFormat) -> (info: BgInfo)
        ensures
            info@ == self@.bg_info(pixel_format),
    {
        let name = match &self.name {
            Some(name) => Some(name.clone()),
            None => None,
        };
        let img = match &self.img {
            Some(img) => Some(img.duplicate()),
            None => None,
        };
        BgInfo { name, dimensions: self.dimensions, scale: self.scale, img, pixel_format }
    }

    /// What the output is described as.
    pub fn desc(&self) -> (desc: &Option<String>)
        ensures
            text(*desc) == self@.desc,
    {
        &self.desc
    }

    /// How the output is turned and mirrored.
    pub fn transform(&self) -> (transform: Option<u32>)
        ensures
            transform == self@.transform,
    {
        self.transform
    }

    /// The resources that drawing takes.
    pub fn resources(&self) -> (resources: &S)
        ensures
            *resources == self@.resources,
    {
        &self.resources
    }

    pub fn set_name(&mut self, name: String)
        ensures
            final(self)@ == (WallpaperState { name: Some(name@), ..old(self)@ }),
    {
        self.name = Some(name);
    }

    pub fn set_desc(&mut self, desc: String)
        ensures
            final(self)@ == (WallpaperState { desc: Some(desc@), ..old(self)@ }),
    {
        self.desc = Some(desc);
    }

    pub fn set_dimensions(&mut self, width: i32, height: i32)
        ensures
            final(self)@ == (WallpaperState { dimensions: Some((width, height)), ..old(self)@ }),
    {
        self.dimensions = Some((width, height));
    }

    pub fn set_transform(&mut self, transform: u32)
        ensures
            final(self)@ == (WallpaperState { transform: Some(transform), ..old(self)@ }),
    {
        self.transform = Some(transform);
    }

    pub fn set_scale(&mut self, scale: Scale)
        ensures
            final(self)@ == (WallpaperState { scale: Some(scale), ..old(self)@ }),
    {
        self.scale = Some(scale);
    }

    pub fn set_img_info(&mut self, img: BgImg)
        ensures
            final(self)@ == (WallpaperState { img: Some(img@), ..old(self)@ }),
    {
        self.img = Some(img);
    }

    pub fn set_configured(&mut self, configured: bool)
        ensures
            final(self)@ == (WallpaperState { configured, ..old(self)@ }),
    {
        self.configured = configured;
    }

    /// A frame was handed to the compositor, which answers with `callback` when the next may be.
    pub fn frame_requested(&mut self, callback: ObjectId)
        ensures
            final(self)@ == (WallpaperState {
                callback: Some(callback),
                draw_ready: false,
                ..old(self)@
            }),
    {
        self.callback = Some(callback);
        self.draw_ready = false;
    }

    /// The frame callback was answered.
    pub fn frame_callback_completed(&mut self)
        ensures
            final(self)@ == (WallpaperState { draw_ready: true, ..old(self)@ }),
    {
        self.draw_ready = true;
    }
}

/// What a client is told is modelled as it is told.
pub proof fn law_infos_are_what_they_stand_for(info: BgInfo)
    ensures
        info@.name is Some <==> info.name is Some,
        info.name matches Some(name) ==> info@.name == Some(name@),
        info@.img is Some <==> info.img is Some,
        info.img matches Some(BgImg::Color(color)) ==> info@.img == Some(BgImgState::Color(color)),
        info.img matches Some(BgImg::Img(path)) ==> info@.img == Some(BgImgState::Img(path@)),
        info@.dimensions == info.dimensions,
        info@.scale == info.scale,
        info@.pixel_format == info.pixel_format,
{
}

} // verus!
