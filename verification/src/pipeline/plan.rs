//! What the manager asks of the GPU, as plain values: the resources to
//! create, the bytes to copy, the bind group to build and the draw to issue.
//! Whoever holds the device carries a plan out as it stands.

use vstd::prelude::*;

verus! {

/// The texel formats of the textures that the manager creates.
#[derive(Clone, Copy, Debug, PartialEq, Eq, Structural)]
pub enum PixelFormat {
    /// Four 8-bit channels, read as they are: the lookup tables.
    Rgba8Unorm,
    /// Four 8-bit channels in the sRGB display colour space: the input image.
    Rgba8UnormSrgb,
}

/// The two lookup tables.
#[derive(Clone, Copy, Debug, PartialEq, Eq, Structural)]
pub enum Lut {
    /// The tone curve: one grey value in red, green and blue.
    Curve,
    /// The gradient remap: a colour for each level.
    Gradient,
}

/// A resource that a slot of the bind group can refer to.
#[derive(Clone, Copy, Debug, PartialEq, Eq, Structural)]
pub enum Resource {
    /// The view of the image that is to be processed.
    InputTexture,
    /// The sampler.
    Sampler,
    /// The buffer that holds the settings record.
    SettingsBuffer,
    /// The view of a lookup table.
    LutTexture(Lut),
}

/// What kind of resource a slot of the bind group takes.
#[derive(Clone, Copy, Debug, PartialEq, Eq, Structural)]
pub enum SlotKind {
    /// A two-dimensional texture of filterable float samples.
    Texture,
    /// A filtering sampler.
    Sampler,
    /// A uniform buffer.
    UniformBuffer,
}

/// How the vertices of a draw make triangles.
#[derive(Clone, Copy, Debug, PartialEq, Eq, Structural)]
pub enum Topology {
    /// Every three vertices make a triangle of their own.
    TriangleList,
    /// Every vertex makes a triangle with the two before it.
    TriangleStrip,
}

/// A colour with alpha, 8 bits a channel.
#[derive(Clone, Copy, Debug, PartialEq, Eq, Structural)]
pub struct Rgba {
    pub r: u8,
    pub g: u8,
    pub b: u8,
    pub a: u8,
}

/// How the sampler reads between and beyond texels.
#[derive(Clone, Copy, Debug, PartialEq, Eq, Structural)]
pub struct SamplerSpec {
    /// The nearest texel is taken, for magnifying, minifying and between mip
    /// levels: a lookup table holds separate entries, and a mix of two would
    /// be an entry of no table.
    pub nearest: bool,
    /// Coordinates beyond the edge read the edge, in all three directions.
    pub clamp_to_edge: bool,
}

/// A texture to create: two-dimensional, one mip level, one sample, to be
/// sampled from and copied into.
#[derive(Clone, Copy, Debug, PartialEq, Eq, Structural)]
pub struct TextureSpec {
    pub width: u32,
    pub height: u32,
    pub format: PixelFormat,
}

/// How the bytes of a copy into a texture are laid out. The copy starts at
/// byte 0 of the data and at the origin of mip level 0, and covers `width`
/// by `height` texels.
#[derive(Clone, Copy, Debug, PartialEq, Eq, Structural)]
pub struct TextureWrite {
    pub bytes_per_row: u32,
    pub rows_per_image: u32,
    pub width: u32,
    pub height: u32,
}

/// A corner of the quad: the position (`x`, `y`) in clip space and the
/// texture coordinate (`u`, `v`).
#[derive(Clone, Copy, Debug, PartialEq, Eq, Structural)]
pub struct Vertex {
    pub x: i8,
    pub y: i8,
    pub u: u8,
    pub v: u8,
}

/// Everything that is created once: the pipeline, both lookup-table
/// textures, the settings buffer, the sampler, the quad, the layout of the
/// bind group and a first bind group over it. `F` is the caller's name for a
/// colour format.
#[derive(Debug, PartialEq, Eq)]
pub struct InitPlan<F> {
    /// The format of the colour target that the pipeline writes to, without
    /// blending.
    pub target_format: F,
    /// Both lookup-table textures are created from this.
    pub lut_texture: TextureSpec,
    /// The size of the settings buffer in bytes; it is a uniform buffer that
    /// can be copied into.
    pub settings_buffer_size: u64,
    pub sampler: SamplerSpec,
    /// The corners of the quad.
    pub quad: [Vertex; 4],
    /// How the pipeline makes triangles of the corners.
    pub topology: Topology,
    /// The kind of each slot, all of them visible to the fragment stage.
    pub layout: [SlotKind; 5],
    /// The resource in each slot of the first bind group. No image is loaded
    /// yet, so a lookup table stands in for it.
    pub bindings: [Resource; 5],
}

/// One render: the bytes for the settings buffer, the bind group, and a pass
/// that clears the output and draws the quad once. The commands are recorded
/// in this order and submitted together.
#[derive(Clone, Copy, Debug, PartialEq, Eq)]
pub struct RenderPlan {
    /// Written to the settings buffer at offset 0 before the pass.
    pub settings: [u8; 80],
    /// The resource in each slot of the bind group.
    pub bindings: [Resource; 5],
    /// What the output is cleared to before the draw.
    pub clear: Rgba,
    /// The number of vertices drawn, as a triangle strip, starting at 0.
    pub vertex_count: u32,
    /// The number of instances drawn.
    pub instance_count: u32,
}

/// The kind of slot that takes the resource.
pub open spec fn kind_of(r: Resource) -> SlotKind {
    match r {
        Resource::InputTexture => SlotKind::Texture,
        Resource::Sampler => SlotKind::Sampler,
        Resource::SettingsBuffer => SlotKind::UniformBuffer,
        Resource::LutTexture(_) => SlotKind::Texture,
    }
}

/// The kind of each slot: the image in slot 0, the sampler in slot 1, the
/// settings in slot 2, the tone curve in slot 3 and the gradient in slot 4.
pub open spec fn slot_layout() -> Seq<SlotKind> {
    seq![
        SlotKind::Texture,
        SlotKind::Sampler,
        SlotKind::UniformBuffer,
        SlotKind::Texture,
        SlotKind::Texture,
    ]
}

/// The resource in each slot when rendering.
pub open spec fn render_bindings() -> Seq<Resource> {
    seq![
        Resource::InputTexture,
        Resource::Sampler,
        Resource::SettingsBuffer,
        Resource::LutTexture(Lut::Curve),
        Resource::LutTexture(Lut::Gradient),
    ]
}

/// The resource in each slot before an image is loaded: as when rendering,
/// with the tone curve in the place of the image.
pub open spec fn placeholder_bindings() -> Seq<Resource> {
    render_bindings().update(0, Resource::LutTexture(Lut::Curve))
}

/// The corners of a quad that covers the whole output, as a triangle strip:
/// top left, bottom left, top right, bottom right. The texture coordinate
/// runs from (0, 0) at the top left to (1, 1) at the bottom right.
pub open spec fn full_screen_quad() -> Seq<Vertex> {
    seq![
        Vertex { x: -1i8, y: 1, u: 0, v: 0 },
        Vertex { x: -1i8, y: -1i8, u: 0, v: 1 },
        Vertex { x: 1, y: 1, u: 1, v: 0 },
        Vertex { x: 1, y: -1i8, u: 1, v: 1 },
    ]
}

/// Black without transparency.
pub open spec fn opaque_black() -> Rgba {
    Rgba { r: 0, g: 0, b: 0, a: 255 }
}

/// The texture of a lookup table: 256 by 1, four 8-bit channels.
pub open spec fn lut_texture_spec() -> TextureSpec {
    TextureSpec { width: 256, height: 1, format: PixelFormat::Rgba8Unorm }
}

/// The copy that overwrites a whole lookup table: one row of 1024 bytes.
pub open spec fn lut_write() -> TextureWrite {
    TextureWrite { bytes_per_row: 1024, rows_per_image: 1, width: 256, height: 1 }
}

/// The copy that fills the texture of an image of the given size: the rows
/// follow each other without padding.
pub open spec fn image_write(width: u32, height: u32) -> TextureWrite {
    TextureWrite { bytes_per_row: (4 * width) as u32, rows_per_image: height, width, height }
}

/// The number of bytes that a copy reads from its data.
pub open spec fn bytes_read(w: TextureWrite) -> int {
    if w.height == 0 {
        0
    } else {
        w.bytes_per_row * (w.height - 1) + 4 * w.width
    }
}

/// Every bind group that the manager builds fits the layout: each slot gets
/// a resource of its kind.
pub proof fn lemma_bindings_fit_layout()
    ensures
        slot_layout().len() == 5,
        render_bindings().len() == 5,
        placeholder_bindings().len() == 5,
        forall|i: int| 0 <= i < 5 ==> kind_of(#[trigger] render_bindings()[i]) == slot_layout()[i],
        forall|i: int|
            0 <= i < 5 ==> kind_of(#[trigger] placeholder_bindings()[i]) == slot_layout()[i],
{
    assert(kind_of(render_bindings()[0]) == slot_layout()[0]);
    assert(kind_of(render_bindings()[1]) == slot_layout()[1]);
    assert(kind_of(render_bindings()[2]) == slot_layout()[2]);
    assert(kind_of(render_bindings()[3]) == slot_layout()[3]);
    assert(kind_of(render_bindings()[4]) == slot_layout()[4]);
    assert(kind_of(placeholder_bindings()[0]) == slot_layout()[0]);
}

/// The copy of a lookup table reads exactly the table, and the copy of an
/// image exactly the image.
pub proof fn lemma_writes_read_all(width: u32, height: u32)
    requires
        4 * width <= 0xffff_ffff,
    ensures
        bytes_read(lut_write()) == 1024,
        bytes_read(image_write(width, height)) == 4 * width * height,
{
    if height > 0 {
        assert((4 * width) * (height - 1) + 4 * width == 4 * width * height) by (nonlinear_arith);
    } else {
        assert(4 * width * 0 == 0);
    }
}

} // verus!
