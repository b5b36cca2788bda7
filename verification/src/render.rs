//! The rendering pass: from a mesh to an image.
//!
//! Each face of the mesh is lit, dropped if it faces away from the light,
//! projected onto the screen and drawn into a render target. When all faces
//! are drawn the image is handed out, top row first.

use vstd::prelude::*;
use crate::canvas::Canvas;
use crate::color::Color;
use crate::geometry::{ScreenPoint, TexCoord, Vertex};
use crate::project::{projected, world_to_screen, MAX_EXTENT};
use crate::shade::{in_model_range, intensity, intensity_of, MODEL_LIMIT};
use crate::target::{Raster, RenderTarget};
use crate::triangle::{triangle, Paint};

verus! {

/// What a rendering pass is set up with.
#[derive(Clone, Copy, Debug)]
pub struct Config {
    /// The width of the image in pixels.
    pub width: u32,
    /// The height of the image in pixels.
    pub height: u32,
    /// The direction of the light, a fixed-point vector of unit length.
    pub light: Vertex,
    /// The colour of the pixels that no face covers.
    pub background: Color,
}

/// One triangle of a mesh: three positions in model space and, where the
/// mesh has them, the texture coordinates of the three corners.
#[derive(Clone, Copy, Debug)]
pub struct Face {
    pub positions: [Vertex; 3],
    pub uvs: Option<[TexCoord; 3]>,
}

/// How the faces of a mesh are coloured.
pub enum Material<'a> {
    /// Every face has this colour, dimmed by the light it receives.
    Flat(Color),
    /// Every face shows its part of this texture, dimmed by the light it
    /// receives.
    Textured(&'a Canvas),
}

/// Why a pass produced no image.
#[derive(Clone, Copy, Debug, PartialEq, Eq, Structural)]
pub enum RenderError {
    /// The image is wider or higher than [`MAX_EXTENT`], or too large to be
    /// held in memory.
    TargetTooLarge,
    /// The texture has no texels.
    EmptyTexture,
    /// A component of the light direction exceeds [`MODEL_LIMIT`].
    LightOutOfRange,
    /// A coordinate of the face with this index exceeds [`MODEL_LIMIT`].
    VertexOutOfRange { face: usize },
    /// The mesh is textured and the face with this index has no texture
    /// coordinates.
    MissingTexCoords { face: usize },
}

/// The face projected onto a screen of `width` by `height` pixels.
pub open spec fn screen_triangle(face: Face, width: int, height: int) -> [ScreenPoint; 3] {
    [
        projected(face.positions[0], width, height),
        projected(face.positions[1], width, height),
        projected(face.positions[2], width, height),
    ]
}

impl<'a> Material<'a> {
    /// A texture to draw from has at least one texel.
    pub open spec fn wf(self) -> bool {
        match self {
            Material::Flat(_) => true,
            Material::Textured(texture) => texture@.width > 0 && texture@.height > 0,
        }
    }
}

/// Whether the three positions of the face are within [`MODEL_LIMIT`].
pub open spec fn face_in_range(face: Face) -> bool {
    &&& in_model_range(face.positions[0])
    &&& in_model_range(face.positions[1])
    &&& in_model_range(face.positions[2])
}

/// What is wrong with the face at `index`, if anything: a position out of
/// range, or no texture coordinates where the material is a texture.
pub open spec fn face_fault(face: Face, index: usize, material: Material) -> Option<RenderError> {
    if !face_in_range(face) {
        Some(RenderError::VertexOutOfRange { face: index })
    } else if material is Textured && face.uvs is None {
        Some(RenderError::MissingTexCoords { face: index })
    } else {
        None
    }
}

/// The fault of the first face that has one.
pub open spec fn first_fault(faces: Seq<Face>, material: Material) -> Option<RenderError>
    decreases faces.len(),
{
    if faces.len() == 0 {
        None
    } else {
        match first_fault(faces.drop_last(), material) {
            Some(e) => Some(e),
            None => face_fault(faces.last(), (faces.len() - 1) as usize, material),
        }
    }
}

/// Why a pass over `faces` produces no image, if it does not. The size of
/// the image is looked at first, then the texture, the light, and the faces
/// in their order.
pub open spec fn render_error(config: Config, faces: Seq<Face>, material: Material) -> Option<
    RenderError,
> {
    if config.width > MAX_EXTENT || config.height > MAX_EXTENT || 4 * config.width * config.height
        > usize::MAX {
        Some(RenderError::TargetTooLarge)
    } else if !material.wf() {
        Some(RenderError::EmptyTexture)
    } else if !in_model_range(config.light) {
        Some(RenderError::LightOutOfRange)
    } else {
        first_fault(faces, material)
    }
}

/// The light intensity of a face.
pub open spec fn face_intensity(face: Face, light: Vertex) -> int {
    intensity_of(face.positions[0], face.positions[1], face.positions[2], light)
}

/// The paint of a face lit with `intensity`: the flat colour dimmed, or the
/// texture with the texture coordinates of the face.
pub open spec fn paint_of<'a>(face: Face, material: Material<'a>, intensity: i64) -> Paint<'a> {
    match material {
        Material::Flat(c) => Paint::Flat(c.lit(intensity)),
        Material::Textured(texture) => Paint::Textured {
            texture,
            uvs: face.uvs.unwrap(),
            intensity,
        },
    }
}

impl Raster {
    /// The raster after `face` was drawn: unchanged when the face receives
    /// no light, else with the projected triangle painted.
    pub open spec fn with_face(self, face: Face, light: Vertex, material: Material) -> Raster {
        let i = face_intensity(face, light);
        if i <= 0 {
            self
        } else {
            self.painted(
                screen_triangle(face, self.width as int, self.height as int),
                paint_of(face, material, i as i64),
            )
        }
    }

    /// The raster after all of `faces` were drawn, first to last.
    pub open spec fn with_faces(self, faces: Seq<Face>, light: Vertex, material: Material) -> Raster
        decreases faces.len(),
    {
        if faces.len() == 0 {
            self
        } else {
            self.with_faces(faces.drop_last(), light, material).with_face(
                faces.last(),
                light,
                material,
            )
        }
    }

    /// Whether `image` shows this raster, top row first: the colour at
    /// `(x, y)` of the image is that of the cell at `(x, height - 1 - y)`.
    pub open spec fn shown_by(self, image: crate::canvas::Picture) -> bool {
        &&& image.width == self.width
        &&& image.height == self.height
        &&& forall|x: int, y: int|
            self.contains(x, y) ==> #[trigger] image.at(x, y) == self.at(
                x,
                self.height - 1 - y,
            ).color
    }
}

/// A fault among the first `n` faces is the fault of the whole mesh.
proof fn lemma_first_fault_prefix(faces: Seq<Face>, material: Material, n: int)
    requires
        0 <= n <= faces.len(),
        first_fault(faces.take(n), material) is Some,
    ensures
        first_fault(faces, material) == first_fault(faces.take(n), material),
    decreases faces.len() - n,
{
    if n < faces.len() {
        assert(faces.take(n + 1).drop_last() =~= faces.take(n));
        lemma_first_fault_prefix(faces, material, n + 1);
    } else {
        assert(faces.take(n) =~= faces);
    }
}

/// Whether every coordinate of `v` is within [`MODEL_LIMIT`].
pub fn within_model_range(v: &Vertex) -> (b: bool)
    ensures
        b == in_model_range(*v),
{
    -MODEL_LIMIT <= v.x && v.x <= MODEL_LIMIT && -MODEL_LIMIT <= v.y && v.y <= MODEL_LIMIT
        && -MODEL_LIMIT <= v.z && v.z <= MODEL_LIMIT
}

/// Draws the face with the given index into `target`. The face is lit
/// first; with an intensity of zero or less it is dropped and nothing is
/// drawn. Else it is projected and painted. Returns whether the face was
/// lit, or the fault of the face, in which case nothing is drawn either.
pub fn draw_face(
    target: &mut RenderTarget,
    index: usize,
    face: &Face,
    light: &Vertex,
    material: &Material,
) -> (out: Result<bool, RenderError>)
    requires
        old(target).wf(),
        old(target)@.width <= MAX_EXTENT,
        old(target)@.height <= MAX_EXTENT,
        material.wf(),
        in_model_range(*light),
    ensures
        final(target).wf(),
        match face_fault(*face, index, *material) {
            Some(e) => out == Err::<bool, RenderError>(e) && final(target)@ == old(target)@,
            None => {
                &&& out == Ok::<bool, RenderError>(face_intensity(*face, *light) > 0)
                &&& final(target)@ == old(target)@.with_face(*face, *light, *material)
            },
        },
        face_intensity(*face, *light) <= 0 ==> final(target)@ == old(target)@,
{
    if !within_model_range(&face.positions[0]) || !within_model_range(&face.positions[1])
        || !within_model_range(&face.positions[2]) {
        return Err(RenderError::VertexOutOfRange { face: index });
    }
    if let Material::Textured(_) = material {
        if face.uvs.is_none() {
            return Err(RenderError::MissingTexCoords { face: index });
        }
    }
    let lit = intensity(&face.positions[0], &face.positions[1], &face.positions[2], light);
    if lit <= 0 {
        return Ok(false);
    }
    let width = target.width();
    let height = target.height();
    let points = [
        world_to_screen(&face.positions[0], width, height),
        world_to_screen(&face.positions[1], width, height),
        world_to_screen(&face.positions[2], width, height),
    ];
    assert(points =~= screen_triangle(*face, width as int, height as int));
    let paint = match material {
        Material::Flat(c) => Paint::Flat(c.modulate(lit)),
        Material::Textured(texture) => Paint::Textured {
            texture: *texture,
            uvs: face.uvs.unwrap(),
            intensity: lit,
        },
    };
    triangle(target, &points, &paint);
    Ok(true)
}

/// Renders the mesh `faces` into a new image of the configured size. The
/// faces are drawn first to last over the background; nearer fragments hide
/// farther ones. On success the image is returned, top row first. A pass
/// that cannot be carried out returns the first reason why, and no image.
pub fn render(config: &Config, faces: &[Face], material: &Material) -> (out: Result<
    Canvas,
    RenderError,
>)
    ensures
        match out {
            Ok(image) => {
                &&& render_error(*config, faces@, *material) is None
                &&& Raster::blank(
                    config.width as nat,
                    config.height as nat,
                    config.background,
                ).with_faces(faces@, config.light, *material).shown_by(image@)
            },
            Err(e) => render_error(*config, faces@, *material) == Some(e),
        },
{
    if config.width > MAX_EXTENT || config.height > MAX_EXTENT {
        return Err(RenderError::TargetTooLarge);
    }
    let mut target = match RenderTarget::new(config.width, config.height, config.background) {
        Some(target) => target,
        None => {
            return Err(RenderError::TargetTooLarge);
        },
    };
    match material {
        Material::Flat(_) => {},
        Material::Textured(texture) => {
            if texture.width() == 0 || texture.height() == 0 {
                return Err(RenderError::EmptyTexture);
            }
        },
    }
    if !within_model_range(&config.light) {
        return Err(RenderError::LightOutOfRange);
    }
    let ghost blank = Raster::blank(config.width as nat, config.height as nat, config.background);
    let n = faces.len();
    let mut i: usize = 0;
    while i < n
        invariant
            0 <= i <= n,
            n == faces@.len(),
            target.wf(),
            target@.width == config.width <= MAX_EXTENT,
            target@.height == config.height <= MAX_EXTENT,
            4 * config.width * config.height <= usize::MAX,
            material.wf(),
            in_model_range(config.light),
            blank == Raster::blank(config.width as nat, config.height as nat, config.background),
            first_fault(faces@.take(i as int), *material) is None,
            target@ == blank.with_faces(faces@.take(i as int), config.light, *material),
        decreases n - i,
    {
        proof {
            assert(faces@.take(i + 1).drop_last() =~= faces@.take(i as int));
            assert(faces@.take(i + 1).last() == faces@[i as int]);
        }
        match draw_face(&mut target, i, &faces[i], &config.light, material) {
            Err(e) => {
                proof {
                    lemma_first_fault_prefix(faces@, *material, i + 1);
                }
                return Err(e);
            },
            Ok(_) => {},
        }
        i += 1;
    }
    proof {
        assert(faces@.take(n as int) =~= faces@);
    }
    Ok(target.finish())
}

} // verus!
