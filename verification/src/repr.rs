//! The map as read from text.
//!
//! Numbers are held as the text they were written with; every such text is
//! one that Rust reads as an `f64` (see [`crate::number::float_text`]), so the
//! conversion to floating point is left to the caller.

use vstd::prelude::*;

verus! {

/// A point: three coordinates.
pub struct Point {
    pub x: Vec<u8>,
    pub y: Vec<u8>,
    pub z: Vec<u8>,
}

pub struct PointView {
    pub x: Seq<u8>,
    pub y: Seq<u8>,
    pub z: Seq<u8>,
}

impl View for Point {
    type V = PointView;

    open spec fn view(&self) -> PointView {
        PointView { x: self.x@, y: self.y@, z: self.z@ }
    }
}

/// The texture axes of the Valve220 alignment format.
pub struct TextureAxes {
    pub u: Point,
    pub v: Point,
}

pub struct TextureAxesView {
    pub u: PointView,
    pub v: PointView,
}

impl View for TextureAxes {
    type V = TextureAxesView;

    open spec fn view(&self) -> TextureAxesView {
        TextureAxesView { u: self.u@, v: self.v@ }
    }
}

/// How a texture is laid on a surface.
pub struct Alignment {
    pub offset_x: Vec<u8>,
    pub offset_y: Vec<u8>,
    pub rotation: Vec<u8>,
    pub scale_x: Vec<u8>,
    pub scale_y: Vec<u8>,
    /// Present in the Valve220 format, absent in the legacy one.
    pub axes: Option<TextureAxes>,
}

pub struct AlignmentView {
    pub offset_x: Seq<u8>,
    pub offset_y: Seq<u8>,
    pub rotation: Seq<u8>,
    pub scale_x: Seq<u8>,
    pub scale_y: Seq<u8>,
    pub axes: Option<TextureAxesView>,
}

impl View for Alignment {
    type V = AlignmentView;

    open spec fn view(&self) -> AlignmentView {
        AlignmentView {
            offset_x: self.offset_x@,
            offset_y: self.offset_y@,
            rotation: self.rotation@,
            scale_x: self.scale_x@,
            scale_y: self.scale_y@,
            axes: match self.axes {
                Some(a) => Some(a@),
                None => None,
            },
        }
    }
}

/// Surface attributes of the Quake 2 format.
pub struct Quake2SurfaceExtension {
    pub content_flags: i32,
    pub surface_flags: i32,
    pub surface_value: Vec<u8>,
}

pub struct Quake2SurfaceExtensionView {
    pub content_flags: i32,
    pub surface_flags: i32,
    pub surface_value: Seq<u8>,
}

impl View for Quake2SurfaceExtension {
    type V = Quake2SurfaceExtensionView;

    open spec fn view(&self) -> Quake2SurfaceExtensionView {
        Quake2SurfaceExtensionView {
            content_flags: self.content_flags,
            surface_flags: self.surface_flags,
            surface_value: self.surface_value@,
        }
    }
}

/// The attributes of a surface that does not give them: zero flags and a
/// zero value.
pub open spec fn default_q2ext() -> Quake2SurfaceExtensionView {
    Quake2SurfaceExtensionView { content_flags: 0, surface_flags: 0, surface_value: seq![48u8] }
}

impl Default for Quake2SurfaceExtension {
    fn default() -> (q: Quake2SurfaceExtension)
        ensures
            q@ == default_q2ext(),
    {
        let mut zero: Vec<u8> = Vec::new();
        zero.push(48);
        assert(zero@ =~= seq![48u8]);
        Quake2SurfaceExtension { content_flags: 0, surface_flags: 0, surface_value: zero }
    }
}

/// A face of a brush: the plane through three points, and its texture.
pub struct Surface {
    pub half_space: (Point, Point, Point),
    pub texture: Vec<u8>,
    pub alignment: Alignment,
    pub q2ext: Quake2SurfaceExtension,
}

pub struct SurfaceView {
    pub half_space: (PointView, PointView, PointView),
    pub texture: Seq<u8>,
    pub alignment: AlignmentView,
    pub q2ext: Quake2SurfaceExtensionView,
}

impl View for Surface {
    type V = SurfaceView;

    open spec fn view(&self) -> SurfaceView {
        SurfaceView {
            half_space: (self.half_space.0@, self.half_space.1@, self.half_space.2@),
            texture: self.texture@,
            alignment: self.alignment@,
            q2ext: self.q2ext@,
        }
    }
}

/// A convex solid: its surfaces.
pub type Brush = Vec<Surface>;

/// Key-value pairs of an entity, in order.
pub type Edict = Vec<(Vec<u8>, Vec<u8>)>;

pub open spec fn brush_view(b: Brush) -> Seq<SurfaceView> {
    b@.map_values(|s: Surface| s@)
}

pub open spec fn edict_view(e: Edict) -> Seq<(Seq<u8>, Seq<u8>)> {
    e@.map_values(|p: (Vec<u8>, Vec<u8>)| (p.0@, p.1@))
}

pub open spec fn brushes_view(b: Vec<Brush>) -> Seq<Seq<SurfaceView>> {
    b@.map_values(|br: Brush| brush_view(br))
}

/// An entity: its key-value pairs and its brushes.
pub struct Entity {
    pub edict: Edict,
    pub brushes: Vec<Brush>,
}

pub struct EntityView {
    pub edict: Seq<(Seq<u8>, Seq<u8>)>,
    pub brushes: Seq<Seq<SurfaceView>>,
}

impl View for Entity {
    type V = EntityView;

    open spec fn view(&self) -> EntityView {
        EntityView { edict: edict_view(self.edict), brushes: brushes_view(self.brushes) }
    }
}

impl Entity {
    /// An entity with no pairs and no brushes.
    pub fn new() -> (e: Entity)
        ensures
            e@.edict.len() == 0,
            e@.brushes.len() == 0,
    {
        Entity { edict: Vec::new(), brushes: Vec::new() }
    }
}

/// A map: its entities, in order.
pub struct QuakeMap {
    pub entities: Vec<Entity>,
}

pub struct QuakeMapView {
    pub entities: Seq<EntityView>,
}

impl View for QuakeMap {
    type V = QuakeMapView;

    open spec fn view(&self) -> QuakeMapView {
        QuakeMapView { entities: self.entities@.map_values(|e: Entity| e@) }
    }
}

impl QuakeMap {
    /// A map with no entities.
    pub fn new() -> (m: QuakeMap)
        ensures
            m@.entities.len() == 0,
    {
        QuakeMap { entities: Vec::new() }
    }
}

} // verus!
