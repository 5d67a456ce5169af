//! The render-resource manager: the settings record, the resources of the
//! colour pipeline, and the plans by which they are created, filled and drawn
//! with.
//!
//! The manager decides; it does not touch the GPU. Each operation hands back
//! a plan of plain values, and the holder of the device carries it out.

pub mod plan;
pub mod settings;

pub use plan::{InitPlan, RenderPlan, TextureSpec, TextureWrite};
pub use settings::ColorSettings;

use vstd::prelude::*;
use crate::image_io::{
    can_decode, decoded_height, decoded_rgba, decoded_width, rgba_image_of, RgbaImage,
};
use plan::{
    full_screen_quad, image_write, lut_texture_spec, lut_write, opaque_black,
    placeholder_bindings, render_bindings, slot_layout, Lut, PixelFormat, Resource, Rgba,
    SamplerSpec, SlotKind, Topology, Vertex,
};

verus! {

/// The manager of the GPU resources behind the colour pipeline. It is made
/// empty; `init` creates the resources, once, and every other operation works
/// on them.
#[derive(Debug)]
pub struct Pipeline {
    initialized: bool,
}

/// A copy that overwrites one lookup table.
#[derive(Clone, Copy, Debug, PartialEq, Eq)]
pub struct LutUpload {
    pub target: Lut,
    pub data: [u8; 1024],
    pub layout: TextureWrite,
}

/// The texture for an image, the pixels of the image, and the copy that
/// fills the texture with them.
#[derive(Debug, PartialEq, Eq)]
pub struct ImageUpload {
    pub texture: TextureSpec,
    pub layout: TextureWrite,
    pub pixels: RgbaImage,
}

impl Pipeline {
    /// The resources have been created.
    pub closed spec fn is_initialized(self) -> bool {
        self.initialized
    }

    /// A manager without resources.
    pub fn new() -> (p: Pipeline)
        ensures
            !p.is_initialized(),
    {
        Pipeline { initialized: false }
    }

    /// Whether the resources have been created.
    pub fn initialized(&self) -> (b: bool)
        ensures
            b == self.is_initialized(),
    {
        self.initialized
    }

    /// Plans the resources that live as long as the manager: the pipeline
    /// that writes colours of the format `format`, both lookup-table
    /// textures, the settings buffer, the sampler, the quad, the layout of
    /// the bind group and a first bind group.
    pub fn init<F>(&mut self, format: F) -> (plan: InitPlan<F>)
        ensures
            final(self).is_initialized(),
            plan.target_format == format,
            plan.lut_texture == lut_texture_spec(),
            plan.settings_buffer_size == 80,
            plan.sampler == (SamplerSpec { nearest: true, clamp_to_edge: true }),
            plan.quad@ == full_screen_quad(),
            plan.topology == Topology::TriangleStrip,
            plan.layout@ == slot_layout(),
            plan.bindings@ == placeholder_bindings(),
    {
        self.initialized = true;
        let plan = InitPlan {
            target_format: format,
            lut_texture: TextureSpec { width: 256, height: 1, format: PixelFormat::Rgba8Unorm },
            settings_buffer_size: 80,
            sampler: SamplerSpec { nearest: true, clamp_to_edge: true },
            quad: [
                Vertex { x: -1, y: 1, u: 0, v: 0 },
                Vertex { x: -1, y: -1, u: 0, v: 1 },
                Vertex { x: 1, y: 1, u: 1, v: 0 },
                Vertex { x: 1, y: -1, u: 1, v: 1 },
            ],
            topology: Topology::TriangleStrip,
            layout: [
                SlotKind::Texture,
                SlotKind::Sampler,
                SlotKind::UniformBuffer,
                SlotKind::Texture,
                SlotKind::Texture,
            ],
            bindings: [
                Resource::LutTexture(Lut::Curve),
                Resource::Sampler,
                Resource::SettingsBuffer,
                Resource::LutTexture(Lut::Curve),
                Resource::LutTexture(Lut::Gradient),
            ],
        };
        assert(plan.quad@ =~= full_screen_quad());
        assert(plan.layout@ =~= slot_layout());
        assert(plan.bindings@ =~= placeholder_bindings());
        plan
    }

    /// Plans the copy that overwrites the whole tone-curve table with `data`.
    /// Before `init` there is no table, and nothing to do.
    pub fn update_curves(&self, data: &[u8; 1024]) -> (upload: Option<LutUpload>)
        ensures
            upload is Some <==> self.is_initialized(),
            upload matches Some(u) ==> u.target == Lut::Curve && u.data@ == data@ && u.layout
                == lut_write(),
    {
        if self.initialized {
            Some(
                LutUpload {
                    target: Lut::Curve,
                    data: *data,
                    layout: TextureWrite {
                        bytes_per_row: 1024,
                        rows_per_image: 1,
                        width: 256,
                        height: 1,
                    },
                },
            )
        } else {
            None
        }
    }

    /// Plans the copy that overwrites the whole gradient table with `data`.
    /// Before `init` there is no table, and nothing to do.
    pub fn update_gradient(&self, data: &[u8; 1024]) -> (upload: Option<LutUpload>)
        ensures
            upload is Some <==> self.is_initialized(),
            upload matches Some(u) ==> u.target == Lut::Gradient && u.data@ == data@ && u.layout
                == lut_write(),
    {
        if self.initialized {
            Some(
                LutUpload {
                    target: Lut::Gradient,
                    data: *data,
                    layout: TextureWrite {
                        bytes_per_row: 1024,
                        rows_per_image: 1,
                        width: 256,
                        height: 1,
                    },
                },
            )
        } else {
            None
        }
    }

    /// Plans the texture for `img` and the copy that fills it with all the
    /// pixels of `img` in one transfer. The texture is as large as the
    /// image, in the sRGB display colour space. It belongs to the caller.
    /// Nothing is planned for an image whose samples are single-precision
    /// numbers, of which a row is too long for the GPU, or whose pixels have
    /// no place in a vector.
    pub fn create_texture_from_image(&self, img: &image::DynamicImage) -> (upload: Option<
        ImageUpload,
    >)
        ensures
            upload is Some <==> can_decode(*img),
            upload matches Some(u) ==> {
                &&& u.texture.width == decoded_width(*img)
                &&& u.texture.height == decoded_height(*img)
                &&& u.texture.format == PixelFormat::Rgba8UnormSrgb
                &&& u.layout == image_write(u.texture.width, u.texture.height)
                &&& u.pixels.spec_width() == u.texture.width
                &&& u.pixels.spec_height() == u.texture.height
                &&& u.pixels.spec_pixels() == decoded_rgba(*img)
            },
    {
        match rgba_image_of(img) {
            Some(pixels) => {
                let width = pixels.width();
                let height = pixels.height();
                Some(
                    ImageUpload {
                        texture: TextureSpec { width, height, format: PixelFormat::Rgba8UnormSrgb },
                        layout: TextureWrite {
                            bytes_per_row: 4 * width,
                            rows_per_image: height,
                            width,
                            height,
                        },
                        pixels,
                    },
                )
            },
            None => None,
        }
    }

    /// Plans one render with `settings`: the whole byte image of the record
    /// for the settings buffer, the bind group over the present input
    /// image, and a pass that clears the output to opaque black and draws the
    /// four corners of the quad once. Nothing is waited for.
    pub fn render(&self, settings: &ColorSettings) -> (plan: RenderPlan)
        requires
            self.is_initialized(),
        ensures
            plan.settings@ == settings.encoding(),
            plan.bindings@ == render_bindings(),
            plan.clear == opaque_black(),
            plan.vertex_count == 4,
            plan.instance_count == 1,
    {
        let plan = RenderPlan {
            settings: settings.to_bytes(),
            bindings: [
                Resource::InputTexture,
                Resource::Sampler,
                Resource::SettingsBuffer,
                Resource::LutTexture(Lut::Curve),
                Resource::LutTexture(Lut::Gradient),
            ],
            clear: Rgba { r: 0, g: 0, b: 0, a: 255 },
            vertex_count: 4,
            instance_count: 1,
        };
        assert(plan.bindings@ =~= render_bindings());
        plan
    }
}

/// What a render asks of the GPU is a function of the settings alone: two
/// renders with the same settings, over the same image and the same tables,
/// copy the same bytes, bind the same resources and issue the same draw.
pub proof fn lemma_render_plan_repeatable(settings: ColorSettings, first: RenderPlan, second: RenderPlan)
    requires
        first.settings@ == settings.encoding(),
        first.bindings@ == render_bindings(),
        first.clear == opaque_black(),
        first.vertex_count == 4,
        first.instance_count == 1,
        second.settings@ == settings.encoding(),
        second.bindings@ == render_bindings(),
        second.clear == opaque_black(),
        second.vertex_count == 4,
        second.instance_count == 1,
    ensures
        first.settings@ == second.settings@,
        first.bindings@ == second.bindings@,
        first.clear == second.clear,
        first.vertex_count == second.vertex_count,
        first.instance_count == second.instance_count,
{
}

} // verus!
