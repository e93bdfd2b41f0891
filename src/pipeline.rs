use vstd::prelude::*;
use crate::frame::{Image, RGB};
use crate::geometry::MAX_COORD;
use crate::raster::{
    depth_after, rasterize_triangle, rasterized, DepthBuffer, Fragment, ScreenTriangle,
};
use crate::shading::{in_shadow, is_shadowed};

verus! {

/// The two passes of a frame: first the shadow map is rendered from the
/// light, then the scene from the camera, reading the finished map.
#[derive(Clone, Copy, Debug, PartialEq, Eq, Structural)]
pub enum Stage {
    ShadowPass,
    ScenePass,
}

#[derive(Clone, Copy, Debug, PartialEq, Eq, Structural)]
pub enum PassError {
    /// Shadow-map work was asked for after the scene pass began.
    ShadowPassOver,
    /// Scene work was asked for before the shadow pass finished.
    ShadowPassPending,
}

/// The buffers of one frame and the pass that is under way. The shadow map
/// and the scene depth buffer are separate; the shadow map is written only
/// in the shadow pass.
#[derive(Debug)]
pub struct Renderer {
    pub stage: Stage,
    pub shadow: DepthBuffer,
    pub depth: DepthBuffer,
    pub image: Image,
}

impl Renderer {
    pub open spec fn wf(&self) -> bool {
        &&& self.shadow.wf()
        &&& self.depth.wf()
        &&& self.image.wf()
        &&& self.shadow.width <= MAX_COORD
        &&& self.shadow.height <= MAX_COORD
        &&& self.depth.width <= MAX_COORD
        &&& self.depth.height <= MAX_COORD
        &&& self.image.width == self.depth.width
        &&& self.image.height == self.depth.height
    }

    /// A frame `width x height` with a shadow map `shadow_width x
    /// shadow_height`, in the shadow pass, with every depth at its minimum
    /// and a black image.
    pub fn new(width: usize, height: usize, shadow_width: usize, shadow_height: usize) -> (r: Renderer)
        requires
            width <= MAX_COORD,
            height <= MAX_COORD,
            shadow_width <= MAX_COORD,
            shadow_height <= MAX_COORD,
            width * height <= usize::MAX,
            shadow_width * shadow_height <= usize::MAX,
        ensures
            r.wf(),
            r.stage == Stage::ShadowPass,
            r.depth.width == width,
            r.depth.height == height,
            r.shadow.width == shadow_width,
            r.shadow.height == shadow_height,
            forall|x: int, y: int| 0 <= x < width && 0 <= y < height ==> #[trigger] r.depth.at(x, y) == i32::MIN,
            forall|x: int, y: int|
                0 <= x < shadow_width && 0 <= y < shadow_height ==> #[trigger] r.shadow.at(x, y) == i32::MIN,
            forall|x: int, y: int|
                0 <= x < width && 0 <= y < height ==> #[trigger] r.image.pixel(x, y) == (RGB { r: 0, g: 0, b: 0 }),
    {
        Renderer {
            stage: Stage::ShadowPass,
            shadow: DepthBuffer::new(shadow_width, shadow_height),
            depth: DepthBuffer::new(width, height),
            image: Image::new(width, height),
        }
    }

    /// Draws `t`, given in light space, into the shadow map. Only the shadow
    /// pass may do so.
    pub fn shadow_triangle(&mut self, t: &ScreenTriangle) -> (r: Result<(), PassError>)
        requires
            old(self).wf(),
            t.wf(),
        ensures
            final(self).wf(),
            r is Ok <==> old(self).stage == Stage::ShadowPass,
            r matches Err(e) ==> e == PassError::ShadowPassOver && *final(self) == *old(self),
            r is Ok ==> {
                &&& final(self).stage == old(self).stage
                &&& final(self).depth == old(self).depth
                &&& final(self).image == old(self).image
                &&& final(self).shadow.width == old(self).shadow.width
                &&& final(self).shadow.height == old(self).shadow.height
                &&& forall|x: int, y: int|
                    0 <= x < old(self).shadow.width && 0 <= y < old(self).shadow.height
                        ==> #[trigger] final(self).shadow.at(x, y) as int == depth_after(*t, old(self).shadow, x, y)
            },
    {
        if self.stage != Stage::ShadowPass {
            return Err(PassError::ShadowPassOver);
        }
        let _ = rasterize_triangle(t, &mut self.shadow);
        Ok(())
    }

    /// Ends the shadow pass; from now on the shadow map is only read.
    pub fn finish_shadow_pass(&mut self) -> (r: Result<(), PassError>)
        ensures
            r is Ok <==> old(self).stage == Stage::ShadowPass,
            r matches Err(e) ==> e == PassError::ShadowPassOver,
            final(self).stage == Stage::ScenePass,
            final(self).shadow == old(self).shadow,
            final(self).depth == old(self).depth,
            final(self).image == old(self).image,
    {
        if self.stage != Stage::ShadowPass {
            return Err(PassError::ShadowPassOver);
        }
        self.stage = Stage::ScenePass;
        Ok(())
    }

    /// Rasterizes `t`, given in camera screen space, against the scene depth
    /// buffer and returns the fragments that passed, in scan order, for the
    /// caller to shade. Only the scene pass may do so.
    pub fn scene_triangle(&mut self, t: &ScreenTriangle) -> (r: Result<Vec<Fragment>, PassError>)
        requires
            old(self).wf(),
            t.wf(),
        ensures
            final(self).wf(),
            r is Ok <==> old(self).stage == Stage::ScenePass,
            r matches Err(e) ==> e == PassError::ShadowPassPending && *final(self) == *old(self),
            r matches Ok(frags) ==> {
                &&& final(self).stage == old(self).stage
                &&& final(self).shadow == old(self).shadow
                &&& final(self).image == old(self).image
                &&& rasterized(*t, old(self).depth, final(self).depth, frags@)
            },
    {
        if self.stage != Stage::ScenePass {
            return Err(PassError::ShadowPassPending);
        }
        let frags = rasterize_triangle(t, &mut self.depth);
        Ok(frags)
    }

    /// Whether a scene fragment that the light's transform puts at pixel
    /// `(x, y)` of the shadow map, at light-space depth `depth`, is in
    /// shadow. Only the scene pass reads the map.
    pub fn shadowed(&self, x: i64, y: i64, depth: i64, bias: i64) -> (r: Result<bool, PassError>)
        requires
            self.wf(),
        ensures
            r is Ok <==> self.stage == Stage::ScenePass,
            r matches Err(e) ==> e == PassError::ShadowPassPending,
            r matches Ok(s) ==> s == in_shadow(self.shadow, x as int, y as int, depth as int, bias as int),
    {
        if self.stage != Stage::ScenePass {
            return Err(PassError::ShadowPassPending);
        }
        Ok(is_shadowed(&self.shadow, x, y, depth, bias))
    }

    /// Paints pixel `(x, y)` of the frame; a pixel outside it is refused and
    /// nothing changes.
    pub fn paint(&mut self, x: usize, y: usize, c: RGB) -> (ok: bool)
        requires
            old(self).wf(),
        ensures
            final(self).wf(),
            ok == (x < old(self).image.width && y < old(self).image.height),
            final(self).stage == old(self).stage,
            final(self).shadow == old(self).shadow,
            final(self).depth == old(self).depth,
            final(self).image.width == old(self).image.width,
            final(self).image.height == old(self).image.height,
            forall|i: int, j: int|
                0 <= i < old(self).image.width && 0 <= j < old(self).image.height ==> #[trigger] final(self).image.pixel(
                    i,
                    j,
                ) == if ok && i == x && j == y { c } else { old(self).image.pixel(i, j) },
    {
        if x >= self.image.width || y >= self.image.height {
            return false;
        }
        self.image.set(x, y, c);
        true
    }
}

} // verus!
