//! The overlays: one layer surface per output, and what each of them does on
//! every compositor event.
//!
//! An overlay is known by the protocol id of its `wl_output`. Its layer surface
//! and its fractional-scale object are known by their protocol ids, so that an
//! event on either can be led back to the output. The program owns the Wayland
//! objects and the GPU; it reports each event here and carries out the step that
//! comes back.
//!
//! HiDPI: where the compositor has both `wp_fractional_scale_manager_v1` and
//! `wp_viewporter`, scales come in 120ths and the viewport declares the logical
//! size; otherwise they are whole factors of `wl_output` and go to the surface as
//! its buffer scale.

use std::collections::HashMap;
use vstd::prelude::*;

use crate::scale::{extent, physical_extent, whole_scale_is_exact, Scale};

verus! {

broadcast use vstd::std_specs::hash::group_hash_axioms;

/// Logical width of a surface that the compositor leaves to its client.
pub const DEFAULT_WIDTH: u32 = 1920;

/// Logical height of a surface that the compositor leaves to its client.
pub const DEFAULT_HEIGHT: u32 = 1080;

/// Where scales come from.
#[derive(Debug, Clone, Copy, PartialEq, Eq, Structural)]
pub enum HiDpiMode {
    /// Whole factors, from `wl_output`.
    IntegerOrNone,
    /// 120ths, from `wp_fractional_scale_v1`.
    Fractional,
}

/// What the compositor has told of an output.
#[derive(Debug, Clone, Copy)]
pub struct OutputInfo {
    /// Place in the global logical space, if `xdg_output` gave it.
    pub logical_position: Option<(i32, i32)>,
    /// Place in the global physical space.
    pub location: (i32, i32),
    /// Whole scale factor.
    pub scale_factor: i32,
}

/// State of one overlay.
#[derive(Debug, Clone, Copy)]
pub struct OutputContext {
    /// Protocol id of the layer surface.
    pub surface: u32,
    /// Origin of the output in global logical coordinates.
    pub origin: (i32, i32),
    /// Logical size of the surface; zero until the first configure.
    pub logical_width: u32,
    pub logical_height: u32,
    /// Scale of the output.
    pub scale: Scale,
    /// Whether the surface has a viewport and a fractional-scale object.
    pub viewport: bool,
    /// Whether no configure has come yet.
    pub first_configure: bool,
    /// Whether there is a renderer for the surface.
    pub renderer: bool,
}

/// All overlays, as the events see them.
pub struct Model {
    pub mode: HiDpiMode,
    /// Overlays by output.
    pub outputs: Map<u32, OutputContext>,
    /// Outputs by fractional-scale object.
    pub routes: Map<u32, u32>,
    /// Whether the program is to end.
    pub exit: bool,
}

/// How drawing a frame went.
#[derive(Debug, Clone, Copy, PartialEq, Eq, Structural)]
pub enum FrameOutcome {
    Shown,
    /// The swapchain is lost or out of date.
    Stale,
    OutOfMemory,
    /// Any other failure.
    Failed,
}

/// What to do after a frame.
#[derive(Debug, Clone, Copy, PartialEq, Eq, Structural)]
pub enum FrameAction {
    Nothing,
    /// Resize the renderer to the size that the frame was drawn at.
    Resize,
    /// End the program.
    Exit,
    /// Warn of the failure, and go on.
    Warn,
}

/// How to set up the surface of an output.
#[derive(Debug, Clone, Copy)]
pub struct SurfacePlan {
    pub origin: (i32, i32),
    pub scale: Scale,
    /// Buffer scale to declare.
    pub buffer_scale: Option<i32>,
    /// Whether to attach a fractional-scale object and a viewport.
    pub fractional: bool,
}

/// What a new scale asks for.
#[derive(Debug, Clone, Copy)]
pub struct ScaleStep {
    /// Buffer scale to declare.
    pub buffer_scale: Option<i32>,
    /// Physical size to give the renderer, together with the scale.
    pub resize: Option<(u32, u32)>,
    /// Destination to give the viewport, before a commit.
    pub viewport: Option<(i32, i32)>,
}

/// What new output information asks for.
#[derive(Debug, Clone, Copy)]
pub struct UpdateStep {
    /// Origin to give the renderer.
    pub move_renderer: Option<(i32, i32)>,
    /// What the scale that came with it asks for.
    pub scale: Option<ScaleStep>,
}

/// What a configure asks for.
#[derive(Debug, Clone, Copy)]
pub struct ConfigureStep {
    /// The output that was configured.
    pub id: u32,
    /// Destination to give the viewport.
    pub viewport: Option<(i32, i32)>,
    /// Whether to make the renderer.
    pub init: bool,
    /// Whether to give the renderer its new size, origin and scale.
    pub resize: bool,
    pub origin: (i32, i32),
    pub scale: Scale,
    /// Physical size of the buffer.
    pub physical: (u32, u32),
}

/// Origin of an output: its logical position, else its location, and the origin
/// of the global space where nothing is known of it.
pub open spec fn origin_in(info: Option<OutputInfo>) -> (i32, i32) {
    match info {
        Some(info) => match info.logical_position {
            Some(at) => at,
            None => info.location,
        },
        None => (0, 0),
    }
}

/// Scale of an output as `wl_output` has it; one where nothing is known of it.
pub open spec fn scale_in(info: Option<OutputInfo>) -> Scale {
    match info {
        Some(info) => Scale::Whole(info.scale_factor),
        None => Scale::Whole(1),
    }
}

/// Buffer scale to declare for a scale: its whole factor, where scales are whole.
pub open spec fn buffer_scale_for(mode: HiDpiMode, scale: Scale) -> Option<i32> {
    if mode is IntegerOrNone && scale.is_whole() {
        Some((scale.in_120ths() / 120) as i32)
    } else {
        None
    }
}

/// A `u32` that the protocol takes as an `i32` of the same bits.
pub open spec fn as_signed(n: u32) -> i32 {
    if n >= 0x8000_0000u32 {
        (n - 0x1_0000_0000) as i32
    } else {
        n as i32
    }
}

impl OutputContext {
    /// Physical size of the buffer.
    pub open spec fn physical(self) -> (u32, u32) {
        (
            extent(self.logical_width, self.scale) as u32,
            extent(self.logical_height, self.scale) as u32,
        )
    }

    /// Destination of the viewport, if there is one.
    pub open spec fn destination(self) -> Option<(i32, i32)> {
        if self.viewport {
            Some((as_signed(self.logical_width), as_signed(self.logical_height)))
        } else {
            None
        }
    }

    /// The overlay at another scale.
    pub open spec fn at_scale(self, scale: Scale) -> OutputContext {
        OutputContext { scale, ..self }
    }

    /// The overlay at another origin.
    pub open spec fn at_origin(self, origin: (i32, i32)) -> OutputContext {
        OutputContext { origin, ..self }
    }

    /// The overlay with a renderer.
    pub open spec fn with_renderer(self) -> OutputContext {
        OutputContext { renderer: true, ..self }
    }

    /// The overlay after a configure to `size`, where a zero is left to us.
    pub open spec fn configured(self, size: (u32, u32), origin: (i32, i32)) -> OutputContext {
        OutputContext {
            logical_width: if size.0 == 0 {
                DEFAULT_WIDTH
            } else {
                size.0
            },
            logical_height: if size.1 == 0 {
                DEFAULT_HEIGHT
            } else {
                size.1
            },
            origin,
            first_configure: false,
            ..self
        }
    }
}

/// A new overlay on an output.
pub open spec fn fresh_context(mode: HiDpiMode, surface: u32, info: Option<OutputInfo>) -> OutputContext {
    OutputContext {
        surface,
        origin: origin_in(info),
        logical_width: 0,
        logical_height: 0,
        scale: scale_in(info),
        viewport: mode is Fractional,
        first_configure: true,
        renderer: false,
    }
}

/// The entries of `routes` that do not lead to `id`.
pub open spec fn unrouted(routes: Map<u32, u32>, id: u32) -> Map<u32, u32> {
    Map::new(|k: u32| routes.contains_key(k) && routes[k] != id, |k: u32| routes[k])
}

/// Whether `surface` belongs to output `id`.
pub open spec fn owns(outputs: Map<u32, OutputContext>, id: u32, surface: u32) -> bool {
    outputs.contains_key(id) && outputs[id].surface == surface
}

/// The output that `surface` belongs to, if it belongs to one.
pub open spec fn owner(outputs: Map<u32, OutputContext>, surface: u32) -> Option<u32> {
    if exists|id: u32| owns(outputs, id, surface) {
        Some(choose|id: u32| owns(outputs, id, surface))
    } else {
        None
    }
}

/// What a new scale of an overlay asks for.
pub open spec fn scale_step(mode: HiDpiMode, ctx: OutputContext, scale: Scale) -> ScaleStep {
    ScaleStep {
        buffer_scale: buffer_scale_for(mode, scale),
        resize: if ctx.renderer {
            Some(ctx.at_scale(scale).physical())
        } else {
            None
        },
        viewport: ctx.destination(),
    }
}

impl Model {
    /// What holds of the overlays between any two events: no surface belongs to
    /// two outputs, viewports are there exactly in the fractional mode, and
    /// fractional-scale objects in no other, a configured surface has a size, and
    /// a renderer comes after the configure.
    pub open spec fn wf(self) -> bool {
        &&& self.mode is IntegerOrNone ==> self.routes =~= Map::<u32, u32>::empty()
        &&& forall|a: u32, b: u32|
            self.outputs.contains_key(a) && self.outputs.contains_key(b) && a != b ==> (
            #[trigger] self.outputs[a]).surface != (#[trigger] self.outputs[b]).surface
        &&& forall|id: u32| #[trigger]
            self.outputs.contains_key(id) ==> {
                let ctx = self.outputs[id];
                &&& ctx.viewport == (self.mode is Fractional)
                &&& !ctx.first_configure ==> ctx.logical_width > 0 && ctx.logical_height > 0
                &&& ctx.renderer ==> !ctx.first_configure
            }
    }

    /// Whether output `id` can get this surface and this fractional-scale object:
    /// unless it has a surface, both were just made for it, so that their ids are
    /// those of no other, and the object was made where the mode is fractional.
    pub open spec fn can_add(self, id: u32, surface: u32, fractional: Option<u32>) -> bool {
        self.outputs.contains_key(id) || {
            &&& owner(self.outputs, surface) is None
            &&& fractional is Some <==> self.mode is Fractional
            &&& fractional matches Some(object) ==> !self.routes.contains_key(object)
        }
    }

    /// No overlay yet.
    pub open spec fn start(mode: HiDpiMode) -> Model {
        Model { mode, outputs: Map::empty(), routes: Map::empty(), exit: false }
    }

    /// Output `id` gets a surface, unless it has one.
    pub open spec fn added(
        self,
        id: u32,
        surface: u32,
        fractional: Option<u32>,
        info: Option<OutputInfo>,
    ) -> Model {
        if self.outputs.contains_key(id) {
            self
        } else {
            Model {
                outputs: self.outputs.insert(id, fresh_context(self.mode, surface, info)),
                routes: match fractional {
                    Some(object) => self.routes.insert(object, id),
                    None => self.routes,
                },
                ..self
            }
        }
    }

    /// Output `id` goes away, with all that leads to it.
    pub open spec fn removed(self, id: u32) -> Model {
        if self.outputs.contains_key(id) {
            Model {
                outputs: self.outputs.remove(id),
                routes: unrouted(self.routes, id),
                ..self
            }
        } else {
            self
        }
    }

    /// Whether `scale` is news for output `id`.
    pub open spec fn rescales(self, id: u32, scale: Scale) -> bool {
        self.outputs.contains_key(id) && self.outputs[id].scale.in_120ths() != scale.in_120ths()
    }

    /// Output `id` gets another scale.
    pub open spec fn rescaled(self, id: u32, scale: Scale) -> Model {
        if self.rescales(id, scale) {
            Model { outputs: self.outputs.insert(id, self.outputs[id].at_scale(scale)), ..self }
        } else {
            self
        }
    }

    /// What another scale of output `id` asks for.
    pub open spec fn rescale_step(self, id: u32, scale: Scale) -> Option<ScaleStep> {
        if self.rescales(id, scale) {
            Some(scale_step(self.mode, self.outputs[id], scale))
        } else {
            None
        }
    }

    /// Output `id` gets another origin.
    pub open spec fn moved(self, id: u32, origin: (i32, i32)) -> Model {
        if self.outputs.contains_key(id) {
            Model { outputs: self.outputs.insert(id, self.outputs[id].at_origin(origin)), ..self }
        } else {
            self
        }
    }

    /// There is news of output `id`: its origin, and its scale where scales come
    /// from `wl_output`.
    pub open spec fn updated(self, id: u32, info: Option<OutputInfo>) -> Model {
        let moved = self.moved(id, origin_in(info));
        if self.mode is IntegerOrNone {
            moved.rescaled(id, scale_in(info))
        } else {
            moved
        }
    }

    /// The compositor closes a surface; the last one ends the program.
    pub open spec fn closed(self, surface: u32) -> Model {
        match owner(self.outputs, surface) {
            Some(id) => {
                let rest = self.removed(id);
                Model { exit: self.exit || rest.outputs.is_empty(), ..rest }
            },
            None => self,
        }
    }

    /// The compositor gives a surface its logical size.
    pub open spec fn configured(
        self,
        surface: u32,
        size: (u32, u32),
        info: Option<OutputInfo>,
    ) -> Model {
        match owner(self.outputs, surface) {
            Some(id) => Model {
                outputs: self.outputs.insert(
                    id,
                    self.outputs[id].configured(size, origin_in(info)),
                ),
                ..self
            },
            None => self,
        }
    }

    /// The renderer of output `id` was made, or could not be: then the overlay is
    /// given up, and with the last one the program ends.
    pub open spec fn renderer_made(self, id: u32, made: bool) -> Model {
        if made {
            Model { outputs: self.outputs.insert(id, self.outputs[id].with_renderer()), ..self }
        } else {
            let rest = self.outputs.remove(id);
            Model { outputs: rest, exit: self.exit || rest.is_empty(), ..self }
        }
    }

    /// A frame was drawn; without memory the program ends.
    pub open spec fn frame_drawn(self, outcome: FrameOutcome) -> Model {
        Model { exit: self.exit || outcome is OutOfMemory, ..self }
    }
}

/// The overlays of all outputs.
#[derive(Debug)]
pub struct AppState {
    hidpi_mode: HiDpiMode,
    outputs: HashMap<u32, OutputContext>,
    fractional_to_output: HashMap<u32, u32>,
    exit: bool,
}

impl View for AppState {
    type V = Model;

    closed spec fn view(&self) -> Model {
        Model {
            mode: self.hidpi_mode,
            outputs: self.outputs@,
            routes: self.fractional_to_output@,
            exit: self.exit,
        }
    }
}

/// The entries of `routes` that do not lead to `id`.
fn without_routes_to(routes: &HashMap<u32, u32>, id: u32) -> (r: HashMap<u32, u32>)
    ensures
        r@ == unrouted(routes@, id),
{
    let mut out: HashMap<u32, u32> = HashMap::new();
    for (k, v) in it: routes.iter()
        invariant
            forall|k: u32| #[trigger]
                out@.contains_key(k) ==> routes@.contains_key(k) && out@[k] == routes@[k]
                    && routes@[k] != id,
            forall|i: int|
                0 <= i < it.index() && *(#[trigger] it.seq()[i]).1 != id ==> out@.contains_key(
                    *it.seq()[i].0,
                ),
    {
        if *v != id {
            out.insert(*k, *v);
        }
    }
    assert(out@ =~= unrouted(routes@, id));
    out
}

/// A `u32` as the `i32` of the same bits.
fn to_signed(n: u32) -> (r: i32)
    ensures
        r == as_signed(n),
{
    assert(n >= 0x8000_0000 ==> n as i32 == n - 0x1_0000_0000) by (bit_vector);
    n as i32
}

impl AppState {
    /// No overlay yet. Both objects are needed for the fractional mode.
    pub fn new(fractional_manager: bool, viewporter: bool) -> (r: Self)
        ensures
            r@ == Model::start(
                if fractional_manager && viewporter {
                    HiDpiMode::Fractional
                } else {
                    HiDpiMode::IntegerOrNone
                },
            ),
            r@.wf(),
    {
        let hidpi_mode: HiDpiMode = if fractional_manager && viewporter {
            HiDpiMode::Fractional
        } else {
            HiDpiMode::IntegerOrNone
        };
        AppState {
            hidpi_mode,
            outputs: HashMap::new(),
            fractional_to_output: HashMap::new(),
            exit: false,
        }
    }

    /// Where scales come from.
    pub fn hidpi_mode(&self) -> (r: HiDpiMode)
        ensures
            r == self@.mode,
    {
        self.hidpi_mode
    }

    /// Whether the event loop goes on, given whether the user asked to stop.
    pub fn keeps_running(&self, shutdown: bool) -> (r: bool)
        ensures
            r == (!self@.exit && !shutdown),
    {
        !self.exit && !shutdown
    }

    /// State of the overlay on output `id`.
    pub fn context(&self, id: u32) -> (r: Option<OutputContext>)
        ensures
            r == (if self@.outputs.contains_key(id) {
                Some(self@.outputs[id])
            } else {
                None
            }),
    {
        match self.outputs.get(&id) {
            Some(ctx) => Some(*ctx),
            None => None,
        }
    }

    /// Origin of an output in global logical coordinates.
    pub fn origin_of(info: &Option<OutputInfo>) -> (r: (i32, i32))
        ensures
            r == origin_in(*info),
    {
        match info {
            Some(info) => match info.logical_position {
                Some(at) => at,
                None => info.location,
            },
            None => (0, 0),
        }
    }

    /// Scale of an output before any fractional one has come.
    pub fn initial_scale_of(info: &Option<OutputInfo>) -> (r: Scale)
        ensures
            r == scale_in(*info),
    {
        match info {
            Some(info) => Scale::Whole(info.scale_factor),
            None => Scale::Whole(1),
        }
    }

    /// Buffer scale to declare for a scale.
    fn buffer_scale(&self, scale: Scale) -> (r: Option<i32>)
        ensures
            r == buffer_scale_for(self@.mode, scale),
    {
        match self.hidpi_mode {
            HiDpiMode::IntegerOrNone => scale.whole(),
            HiDpiMode::Fractional => None,
        }
    }

    /// How to set up the surface of output `id`; nothing where it has one.
    pub fn plan_output_surface(&self, id: u32, info: &Option<OutputInfo>) -> (r: Option<
        SurfacePlan,
    >)
        ensures
            r is None <==> self@.outputs.contains_key(id),
            r matches Some(plan) ==> {
                &&& plan.origin == origin_in(*info)
                &&& plan.scale == scale_in(*info)
                &&& plan.buffer_scale == buffer_scale_for(self@.mode, scale_in(*info))
                &&& plan.fractional == (self@.mode is Fractional)
            },
    {
        if self.outputs.contains_key(&id) {
            return None;
        }
        let scale: Scale = Self::initial_scale_of(info);
        Some(
            SurfacePlan {
                origin: Self::origin_of(info),
                scale,
                buffer_scale: self.buffer_scale(scale),
                fractional: matches!(self.hidpi_mode, HiDpiMode::Fractional),
            },
        )
    }

    /// Takes in the surface that was set up for output `id`, with the
    /// fractional-scale object that was attached to it. Changes nothing where the
    /// output has a surface.
    pub fn add_output_surface(
        &mut self,
        id: u32,
        surface: u32,
        fractional: Option<u32>,
        info: &Option<OutputInfo>,
    )
        requires
            old(self)@.wf(),
            old(self)@.can_add(id, surface, fractional),
        ensures
            final(self)@ == old(self)@.added(id, surface, fractional, *info),
            final(self)@.wf(),
    {
        if self.outputs.contains_key(&id) {
            return ;
        }
        let ghost before = self@;
        if let Some(object) = fractional {
            self.fractional_to_output.insert(object, id);
        }
        let ctx: OutputContext = OutputContext {
            surface,
            origin: Self::origin_of(info),
            logical_width: 0,
            logical_height: 0,
            scale: Self::initial_scale_of(info),
            viewport: matches!(self.hidpi_mode, HiDpiMode::Fractional),
            first_configure: true,
            renderer: false,
        };
        self.outputs.insert(id, ctx);
        proof {
            assert forall|other: u32| #[trigger] before.outputs.contains_key(other) implies
                before.outputs[other].surface != surface by {
                if before.outputs[other].surface == surface {
                    assert(owns(before.outputs, other, surface));
                }
            }
        }
    }

    /// Forgets output `id`. Tells whether it had a surface.
    pub fn remove_output_surface(&mut self, id: u32) -> (r: bool)
        requires
            old(self)@.wf(),
        ensures
            final(self)@ == old(self)@.removed(id),
            final(self)@.wf(),
            r == old(self)@.outputs.contains_key(id),
    {
        match self.outputs.remove(&id) {
            Some(_) => {
                self.fractional_to_output = without_routes_to(&self.fractional_to_output, id);
                true
            },
            None => {
                assert(self.outputs@ =~= old(self).outputs@);
                false
            },
        }
    }

    /// The output that a surface belongs to.
    pub fn ctx_for_surface(&self, surface: u32) -> (r: Option<u32>)
        requires
            self@.wf(),
        ensures
            r == owner(self@.outputs, surface),
            r matches Some(id) ==> owns(self@.outputs, id, surface),
    {
        for (id, ctx) in it: self.outputs.iter()
            invariant
                self@.wf(),
                forall|i: int|
                    0 <= i < it.index() ==> (*(#[trigger] it.seq()[i]).1).surface != surface,
        {
            if ctx.surface == surface {
                assert(owns(self@.outputs, *id, surface));
                return Some(*id);
            }
        }
        assert forall|id: u32| !#[trigger] owns(self@.outputs, id, surface) by {
            assert(!self.outputs@.contains_key(id) || self.outputs@[id].surface != surface);
        }
        None
    }

    /// The output that a fractional-scale object leads to.
    pub fn ctx_for_fractional(&self, object: u32) -> (r: Option<u32>)
        ensures
            r == (if self@.routes.contains_key(object) {
                Some(self@.routes[object])
            } else {
                None
            }),
    {
        match self.fractional_to_output.get(&object) {
            Some(id) => Some(*id),
            None => None,
        }
    }

    /// Physical size of the buffer of an overlay.
    pub fn physical_size(ctx: &OutputContext) -> (r: (u32, u32))
        ensures
            r == ctx.physical(),
    {
        (
            physical_extent(ctx.logical_width, ctx.scale),
            physical_extent(ctx.logical_height, ctx.scale),
        )
    }

    /// Destination of the viewport of an overlay.
    fn destination_of(ctx: &OutputContext) -> (r: Option<(i32, i32)>)
        ensures
            r == ctx.destination(),
    {
        if ctx.viewport {
            Some((to_signed(ctx.logical_width), to_signed(ctx.logical_height)))
        } else {
            None
        }
    }

    /// Whether to draw output `id`, and at what physical size: it is drawn once
    /// it has a renderer.
    pub fn draw_output(&self, id: u32) -> (r: Option<(u32, u32)>)
        ensures
            r == (if self@.outputs.contains_key(id) && self@.outputs[id].renderer {
                Some(self@.outputs[id].physical())
            } else {
                None
            }),
    {
        match self.outputs.get(&id) {
            Some(ctx) => {
                if ctx.renderer {
                    Some(Self::physical_size(ctx))
                } else {
                    None
                }
            },
            None => None,
        }
    }

    /// Takes in how drawing a frame went.
    pub fn frame_drawn(&mut self, outcome: FrameOutcome) -> (r: FrameAction)
        ensures
            final(self)@ == old(self)@.frame_drawn(outcome),
            r == match outcome {
                FrameOutcome::Shown => FrameAction::Nothing,
                FrameOutcome::Stale => FrameAction::Resize,
                FrameOutcome::OutOfMemory => FrameAction::Exit,
                FrameOutcome::Failed => FrameAction::Warn,
            },
    {
        match outcome {
            FrameOutcome::Shown => FrameAction::Nothing,
            FrameOutcome::Stale => FrameAction::Resize,
            FrameOutcome::OutOfMemory => {
                self.exit = true;
                FrameAction::Exit
            },
            FrameOutcome::Failed => FrameAction::Warn,
        }
    }

    /// Gives output `id` the scale `scale`. Nothing is asked for where that is
    /// its scale already, or where there is no such output.
    pub fn set_output_scale(&mut self, id: u32, scale: Scale) -> (r: Option<ScaleStep>)
        requires
            old(self)@.wf(),
        ensures
            final(self)@ == old(self)@.rescaled(id, scale),
            final(self)@.wf(),
            r == old(self)@.rescale_step(id, scale),
            old(self)@.outputs.contains_key(id) ==> {
                &&& final(self)@.outputs.contains_key(id)
                &&& final(self)@.outputs[id].scale.in_120ths() == scale.in_120ths()
                &&& r is Some <==> old(self)@.outputs[id].scale.in_120ths() != scale.in_120ths()
            },
    {
        let mut ctx: OutputContext = match self.outputs.get(&id) {
            Some(ctx) => *ctx,
            None => {
                return None;
            },
        };
        if ctx.scale.same(&scale) {
            return None;
        }
        ctx.scale = scale;
        self.outputs.insert(id, ctx);
        let resize: Option<(u32, u32)> = if ctx.renderer {
            Some(Self::physical_size(&ctx))
        } else {
            None
        };
        Some(
            ScaleStep {
                buffer_scale: self.buffer_scale(scale),
                resize,
                viewport: Self::destination_of(&ctx),
            },
        )
    }

    /// A surface has another whole scale factor, which counts as one at least.
    /// In the fractional mode that is no news.
    pub fn scale_factor_changed(&mut self, surface: u32, new_factor: i32) -> (r: Option<
        (u32, ScaleStep),
    >)
        requires
            old(self)@.wf(),
        ensures
            final(self)@.wf(),
            match owner(old(self)@.outputs, surface) {
                Some(id) if old(self)@.mode is IntegerOrNone => {
                    let scale = Scale::Whole(
                        if new_factor < 1 {
                            1
                        } else {
                            new_factor
                        },
                    );
                    &&& final(self)@ == old(self)@.rescaled(id, scale)
                    &&& r == match old(self)@.rescale_step(id, scale) {
                        Some(step) => Some((id, step)),
                        None => None,
                    }
                },
                _ => final(self)@ == old(self)@ && r is None,
            },
            owner(old(self)@.outputs, surface) matches Some(id) ==> {
                &&& final(self)@.outputs.contains_key(id)
                &&& old(self)@.mode is IntegerOrNone && new_factor >= 1
                    ==> final(self)@.outputs[id].scale.in_120ths() == 120 * new_factor
                &&& old(self)@.mode is IntegerOrNone && new_factor < 1
                    ==> final(self)@.outputs[id].scale.in_120ths() == 120
            },
    {
        if matches!(self.hidpi_mode, HiDpiMode::Fractional) {
            return None;
        }
        match self.ctx_for_surface(surface) {
            Some(id) => {
                let factor: i32 = if new_factor < 1 {
                    1
                } else {
                    new_factor
                };
                match self.set_output_scale(id, Scale::Whole(factor)) {
                    Some(step) => Some((id, step)),
                    None => None,
                }
            },
            None => None,
        }
    }

    /// A fractional-scale object has a scale in 120ths for its output.
    pub fn preferred_scale(&mut self, object: u32, numerator: u32) -> (r: Option<(u32, ScaleStep)>)
        requires
            old(self)@.wf(),
        ensures
            final(self)@.wf(),
            if old(self)@.routes.contains_key(object) {
                let id = old(self)@.routes[object];
                let scale = Scale::Fraction(numerator);
                &&& final(self)@ == old(self)@.rescaled(id, scale)
                &&& r == match old(self)@.rescale_step(id, scale) {
                    Some(step) => Some((id, step)),
                    None => None,
                }
            } else {
                final(self)@ == old(self)@ && r is None
            },
            old(self)@.routes.contains_key(object) && old(self)@.outputs.contains_key(
                old(self)@.routes[object],
            ) ==> {
                let id = old(self)@.routes[object];
                &&& final(self)@.outputs.contains_key(id)
                &&& final(self)@.outputs[id].scale.in_120ths() == numerator
                &&& r is Some <==> old(self)@.outputs[id].scale.in_120ths() != numerator
            },
    {
        let id: u32 = match self.ctx_for_fractional(object) {
            Some(id) => id,
            None => {
                return None;
            },
        };
        match self.set_output_scale(id, Scale::Fraction(numerator)) {
            Some(step) => Some((id, step)),
            None => None,
        }
    }

    /// There is news of output `id`.
    pub fn update_output(&mut self, id: u32, info: &Option<OutputInfo>) -> (r: UpdateStep)
        requires
            old(self)@.wf(),
        ensures
            final(self)@ == old(self)@.updated(id, *info),
            final(self)@.wf(),
            r.move_renderer == (if old(self)@.outputs.contains_key(id)
                && old(self)@.outputs[id].origin != origin_in(*info)
                && old(self)@.outputs[id].renderer {
                Some(origin_in(*info))
            } else {
                None
            }),
            r.scale == (if old(self)@.mode is IntegerOrNone {
                old(self)@.moved(id, origin_in(*info)).rescale_step(id, scale_in(*info))
            } else {
                None
            }),
    {
        let ghost before = self@;
        let origin: (i32, i32) = Self::origin_of(info);
        let known: Option<OutputContext> = self.context(id);
        let mut move_renderer: Option<(i32, i32)> = None;
        if let Some(found) = known {
            let mut ctx: OutputContext = found;
            if ctx.origin.0 != origin.0 || ctx.origin.1 != origin.1 {
                ctx.origin = origin;
                self.outputs.insert(id, ctx);
                if ctx.renderer {
                    move_renderer = Some(origin);
                }
            }
        }
        assert(self.outputs@ =~= before.moved(id, origin).outputs);
        assert(self@ == before.moved(id, origin));
        let scale: Option<ScaleStep> = match self.hidpi_mode {
            HiDpiMode::IntegerOrNone => self.set_output_scale(id, Self::initial_scale_of(info)),
            HiDpiMode::Fractional => None,
        };
        UpdateStep { move_renderer, scale }
    }

    /// The compositor closes a surface. Tells which output it belonged to.
    pub fn closed(&mut self, surface: u32) -> (r: Option<u32>)
        requires
            old(self)@.wf(),
        ensures
            final(self)@ == old(self)@.closed(surface),
            final(self)@.wf(),
            r == owner(old(self)@.outputs, surface),
    {
        match self.ctx_for_surface(surface) {
            Some(id) => {
                self.remove_output_surface(id);
                if self.outputs.is_empty() {
                    self.exit = true;
                }
                Some(id)
            },
            None => None,
        }
    }

    /// The compositor gives a surface its logical size; a zero leaves the side to
    /// us.
    pub fn configure(
        &mut self,
        surface: u32,
        new_size: (u32, u32),
        info: &Option<OutputInfo>,
    ) -> (r: Option<ConfigureStep>)
        requires
            old(self)@.wf(),
        ensures
            final(self)@ == old(self)@.configured(surface, new_size, *info),
            final(self)@.wf(),
            match owner(old(self)@.outputs, surface) {
                Some(id) => {
                    let ctx = old(self)@.outputs[id];
                    let after = ctx.configured(new_size, origin_in(*info));
                    r == Some(
                        ConfigureStep {
                            id,
                            viewport: after.destination(),
                            init: ctx.first_configure,
                            resize: !ctx.first_configure && ctx.renderer,
                            origin: origin_in(*info),
                            scale: ctx.scale,
                            physical: after.physical(),
                        },
                    )
                },
                None => r is None,
            },
            r matches Some(step) ==> {
                let ctx = final(self)@.outputs[step.id];
                &&& final(self)@.outputs.contains_key(step.id)
                &&& ctx.surface == surface
                &&& new_size.0 > 0 ==> ctx.logical_width == new_size.0 && step.physical.0 == extent(
                    new_size.0,
                    step.scale,
                )
                &&& new_size.1 > 0 ==> ctx.logical_height == new_size.1 && step.physical.1
                    == extent(new_size.1, step.scale)
                &&& step.viewport is Some <==> old(self)@.mode is Fractional
                &&& step.viewport matches Some(shown) ==> {
                    &&& 0 < new_size.0 <= 0x7fff_ffff ==> shown.0 == new_size.0
                    &&& 0 < new_size.1 <= 0x7fff_ffff ==> shown.1 == new_size.1
                }
                &&& ctx.origin == step.origin
            },
    {
        let id: u32 = match self.ctx_for_surface(surface) {
            Some(id) => id,
            None => {
                return None;
            },
        };
        let mut ctx: OutputContext = match self.context(id) {
            Some(ctx) => ctx,
            None => {
                return None;
            },
        };
        let (w, h) = new_size;
        ctx.logical_width = if w == 0 {
            DEFAULT_WIDTH
        } else {
            w
        };
        ctx.logical_height = if h == 0 {
            DEFAULT_HEIGHT
        } else {
            h
        };
        ctx.origin = Self::origin_of(info);
        let init: bool = ctx.first_configure;
        ctx.first_configure = false;
        self.outputs.insert(id, ctx);
        Some(
            ConfigureStep {
                id,
                viewport: Self::destination_of(&ctx),
                init,
                resize: !init && ctx.renderer,
                origin: ctx.origin,
                scale: ctx.scale,
                physical: Self::physical_size(&ctx),
            },
        )
    }

    /// Takes in whether the renderer of output `id` could be made. Without it the
    /// overlay is given up.
    pub fn renderer_made(&mut self, id: u32, made: bool)
        requires
            old(self)@.wf(),
            old(self)@.outputs.contains_key(id),
            !old(self)@.outputs[id].first_configure,
        ensures
            final(self)@ == old(self)@.renderer_made(id, made),
            final(self)@.wf(),
    {
        if made {
            let known: Option<OutputContext> = self.context(id);
            if let Some(found) = known {
                let mut ctx: OutputContext = found;
                ctx.renderer = true;
                self.outputs.insert(id, ctx);
            }
        } else {
            self.outputs.remove(&id);
            if self.outputs.is_empty() {
                self.exit = true;
            }
        }
    }
}

/// The output of a surface is never in doubt: it is the one that owns it.
pub proof fn owner_is_unique(m: Model, id: u32, surface: u32)
    requires
        m.wf(),
        owns(m.outputs, id, surface),
    ensures
        owner(m.outputs, surface) == Some(id),
{
    let other = choose|other: u32| owns(m.outputs, other, surface);
    assert(owns(m.outputs, other, surface));
}

/// Adding an output that has a surface changes nothing.
pub proof fn adding_is_idempotent(
    m: Model,
    id: u32,
    surface: u32,
    fractional: Option<u32>,
    info: Option<OutputInfo>,
    surface2: u32,
    fractional2: Option<u32>,
    info2: Option<OutputInfo>,
)
    ensures
        m.added(id, surface, fractional, info).added(id, surface2, fractional2, info2) == m.added(
            id,
            surface,
            fractional,
            info,
        ),
{
}

/// Removing an output undoes adding it, where nothing led to it before: every
/// other overlay and every other object is as it was, and the program goes on as
/// it did, even with no overlay left. Removing the output once more changes
/// nothing, nor does removing any that has no overlay.
pub proof fn removing_undoes_adding(
    m: Model,
    id: u32,
    surface: u32,
    fractional: Option<u32>,
    info: Option<OutputInfo>,
)
    requires
        m.can_add(id, surface, fractional),
        !m.outputs.contains_key(id),
        forall|k: u32| #[trigger] m.routes.contains_key(k) ==> m.routes[k] != id,
    ensures
        m.added(id, surface, fractional, info).removed(id) == m,
        m.removed(id) == m,
        forall|unknown: u32|
            !m.outputs.contains_key(unknown) ==> #[trigger] m.removed(unknown) == m,
{
    let back = m.added(id, surface, fractional, info).removed(id);
    assert(back.outputs =~= m.outputs);
    assert(back.routes =~= m.routes);
}

/// An output that goes away leaves nothing behind: neither an overlay nor a
/// fractional-scale object that leads to it. The other objects lead where they
/// led before.
pub proof fn removal_is_complete(m: Model, id: u32)
    requires
        m.outputs.contains_key(id),
    ensures
        !m.removed(id).outputs.contains_key(id),
        forall|k: u32| #[trigger]
            m.removed(id).routes.contains_key(k) <==> m.routes.contains_key(k) && m.routes[k]
                != id,
        forall|k: u32| #[trigger]
            m.removed(id).routes.contains_key(k) ==> m.removed(id).routes[k] == m.routes[k],
{
}

/// The scale of a fractional-scale object reaches the output that it was made
/// for, and becomes the scale of its overlay.
pub proof fn preferred_scale_finds_its_output(
    m: Model,
    id: u32,
    surface: u32,
    object: u32,
    info: Option<OutputInfo>,
    scale: Scale,
)
    requires
        !m.outputs.contains_key(id),
    ensures
        ({
            let with = m.added(id, surface, Some(object), info);
            &&& with.routes.contains_key(object)
            &&& with.routes[object] == id
            &&& with.rescaled(id, scale).outputs[id].scale.in_120ths() == scale.in_120ths()
        }),
{
}

/// Where scales are whole, no fractional-scale object leads anywhere, so that no
/// scale in 120ths reaches an overlay.
pub proof fn whole_mode_has_no_routes(m: Model, object: u32)
    requires
        m.wf(),
        m.mode is IntegerOrNone,
    ensures
        !m.routes.contains_key(object),
{
}

/// A scale that an overlay has already is no news: giving it twice is giving it
/// once, and the second time nothing is asked for.
pub proof fn rescaling_is_idempotent(m: Model, id: u32, scale: Scale)
    ensures
        m.rescaled(id, scale).rescaled(id, scale) == m.rescaled(id, scale),
        m.rescaled(id, scale).rescale_step(id, scale) is None,
{
}

/// What happens to one output leaves the overlays of all others as they are.
pub proof fn outputs_are_independent(
    m: Model,
    id: u32,
    other: u32,
    surface: u32,
    fractional: Option<u32>,
    info: Option<OutputInfo>,
    size: (u32, u32),
    scale: Scale,
    made: bool,
)
    requires
        m.wf(),
        other != id,
    ensures
        same_overlay(m, m.added(id, surface, fractional, info), other),
        same_overlay(m, m.removed(id), other),
        same_overlay(m, m.rescaled(id, scale), other),
        same_overlay(m, m.updated(id, info), other),
        same_overlay(m, m.renderer_made(id, made), other),
        owns(m.outputs, id, surface) ==> same_overlay(m, m.closed(surface), other),
        owns(m.outputs, id, surface) ==> same_overlay(m, m.configured(surface, size, info), other),
{
    if owns(m.outputs, id, surface) {
        owner_is_unique(m, id, surface);
    }
}

/// Whether output `id` has the same overlay, or none, in both.
pub open spec fn same_overlay(a: Model, b: Model, id: u32) -> bool {
    &&& a.outputs.contains_key(id) == b.outputs.contains_key(id)
    &&& a.outputs.contains_key(id) ==> a.outputs[id] == b.outputs[id]
}

/// Once the program is to end, no event changes that.
pub proof fn exit_is_final(
    m: Model,
    id: u32,
    surface: u32,
    fractional: Option<u32>,
    info: Option<OutputInfo>,
    size: (u32, u32),
    scale: Scale,
    made: bool,
    outcome: FrameOutcome,
)
    requires
        m.exit,
    ensures
        m.added(id, surface, fractional, info).exit,
        m.removed(id).exit,
        m.rescaled(id, scale).exit,
        m.updated(id, info).exit,
        m.renderer_made(id, made).exit,
        m.closed(surface).exit,
        m.configured(surface, size, info).exit,
        m.frame_drawn(outcome).exit,
{
}

/// The program ends when the compositor closes the last surface, and goes on
/// while there is another one.
pub proof fn closing_the_last_surface_exits(m: Model, id: u32, surface: u32)
    requires
        m.wf(),
        !m.exit,
        owns(m.outputs, id, surface),
    ensures
        m.closed(surface).exit <==> forall|other: u32| #[trigger]
            m.outputs.contains_key(other) ==> other == id,
{
    owner_is_unique(m, id, surface);
    let rest = m.outputs.remove(id);
    if forall|other: u32| #[trigger] m.outputs.contains_key(other) ==> other == id {
        assert(rest =~= Map::<u32, OutputContext>::empty());
    } else {
        let other = choose|other: u32| #[trigger] m.outputs.contains_key(other) && other != id;
        assert(rest.contains_key(other));
        assert(rest.dom().contains(other));
    }
}

/// Giving up the overlay whose renderer cannot be made ends the program when it
/// was the last one, and only then.
pub proof fn giving_up_the_last_overlay_exits(m: Model, id: u32)
    requires
        !m.exit,
        m.outputs.contains_key(id),
    ensures
        m.renderer_made(id, false).exit <==> forall|other: u32| #[trigger]
            m.outputs.contains_key(other) ==> other == id,
{
    let rest = m.outputs.remove(id);
    if forall|other: u32| #[trigger] m.outputs.contains_key(other) ==> other == id {
        assert(rest =~= Map::<u32, OutputContext>::empty());
    } else {
        let other = choose|other: u32| #[trigger] m.outputs.contains_key(other) && other != id;
        assert(rest.contains_key(other));
        assert(rest.dom().contains(other));
    }
}

/// A renderer is made for the first configure of a surface and no other: after
/// it, whatever happens to the output, no configure is the first one any more.
pub proof fn first_configure_comes_once(
    m: Model,
    id: u32,
    surface: u32,
    info: Option<OutputInfo>,
    size: (u32, u32),
    scale: Scale,
    made: bool,
)
    requires
        m.wf(),
        owns(m.outputs, id, surface),
    ensures
        ({
            let next = m.configured(surface, size, info);
            &&& was_configured(next, id)
            &&& was_configured(next.rescaled(id, scale), id)
            &&& was_configured(next.updated(id, info), id)
            &&& was_configured(next.renderer_made(id, made), id)
            &&& was_configured(next.configured(surface, size, info), id)
        }),
{
    owner_is_unique(m, id, surface);
    let next = m.configured(surface, size, info);
    assert(next.outputs[id].surface == surface);
    assert(owns(next.outputs, id, surface));
    assert(next.wf());
    owner_is_unique(next, id, surface);
}

/// Whether no configure to come is the first one of output `id`.
pub open spec fn was_configured(m: Model, id: u32) -> bool {
    m.outputs.contains_key(id) ==> !m.outputs[id].first_configure
}

/// A buffer has at least one pixel each way, at every scale and size.
pub proof fn buffer_is_never_empty(ctx: OutputContext)
    ensures
        ctx.physical().0 >= 1,
        ctx.physical().1 >= 1,
        ctx.physical().0 == extent(ctx.logical_width, ctx.scale),
        ctx.physical().1 == extent(ctx.logical_height, ctx.scale),
{
}

/// Whether all that is known of the other outputs is the same in both.
pub open spec fn same_elsewhere(a: Model, b: Model, id: u32) -> bool {
    forall|other: u32|
        other != id ==> {
            &&& #[trigger] a.outputs.contains_key(other) == b.outputs.contains_key(other)
            &&& a.outputs.contains_key(other) ==> a.outputs[other] == b.outputs[other]
        }
}

/// A surface belongs to the output whose overlay it is, and to none where it is no
/// overlay's.
pub proof fn surfaces_lead_to_their_outputs(m: Model, id: u32, surface: u32)
    requires
        m.wf(),
    ensures
        m.outputs.contains_key(id) && m.outputs[id].surface == surface <==> owner(
            m.outputs,
            surface,
        ) == Some(id),
{
    if m.outputs.contains_key(id) && m.outputs[id].surface == surface {
        assert(owns(m.outputs, id, surface));
        owner_is_unique(m, id, surface);
    }
    if owner(m.outputs, surface) == Some(id) {
        let found = choose|found: u32| owns(m.outputs, found, surface);
        assert(owns(m.outputs, found, surface));
    }
}

/// What is known of an output decides where its overlay is and how it is scaled.
pub proof fn information_is_taken_as_it_is(info: OutputInfo)
    ensures
        info.logical_position matches Some(at) ==> origin_in(Some(info)) == at,
        info.logical_position is None ==> origin_in(Some(info)) == info.location,
        origin_in(None) == (0i32, 0i32),
        scale_in(Some(info)) == Scale::Whole(info.scale_factor),
        scale_in(None) == Scale::Whole(1),
{
}

/// A side that the protocol takes as signed is the same number as long as it is
/// one, and has the same bits in any case.
pub proof fn signed_sides_keep_their_bits(n: u32)
    ensures
        n <= 0x7fff_ffff ==> as_signed(n) == n,
        (as_signed(n) as int) % 0x1_0000_0000 == n,
{
}

/// The buffer scale that is declared times the logical size is the physical one:
/// it is the whole factor of the scale, and none is declared for a scale that has
/// none, nor where the viewport declares the size.
pub proof fn buffer_scale_is_the_whole_factor(factor: i32, n: u32)
    ensures
        buffer_scale_for(HiDpiMode::IntegerOrNone, Scale::Whole(factor)) == Some(factor),
        buffer_scale_for(HiDpiMode::IntegerOrNone, Scale::Fraction(n)) is Some <==> n % 120 == 0,
        buffer_scale_for(HiDpiMode::IntegerOrNone, Scale::Fraction(n)) matches Some(whole)
            ==> 120 * whole == n,
        buffer_scale_for(HiDpiMode::Fractional, Scale::Whole(factor)) is None,
        buffer_scale_for(HiDpiMode::Fractional, Scale::Fraction(n)) is None,
{
}

/// The buffer of an overlay is as wide as its logical width at its scale, and as
/// high as its logical height; its viewport is shown at the logical size.
pub proof fn sides_are_not_mixed_up(ctx: OutputContext)
    ensures
        ctx.physical().0 == extent(ctx.logical_width, ctx.scale),
        ctx.physical().1 == extent(ctx.logical_height, ctx.scale),
        !ctx.viewport ==> ctx.destination() is None,
        ctx.viewport ==> {
            &&& ctx.destination() is Some
            &&& ((ctx.destination()->0).0 as int) % 0x1_0000_0000 == ctx.logical_width
            &&& ((ctx.destination()->0).1 as int) % 0x1_0000_0000 == ctx.logical_height
        },
        ctx.scale == Scale::Whole(1) && ctx.logical_width > 0 && ctx.logical_height > 0
            ==> ctx.physical() == (ctx.logical_width, ctx.logical_height),
{
    signed_sides_keep_their_bits(ctx.logical_width);
    signed_sides_keep_their_bits(ctx.logical_height);
    whole_scale_is_exact(ctx.logical_width, 1);
    whole_scale_is_exact(ctx.logical_height, 1);
}

/// A configure gives the overlay the width and the height that it names, each on
/// its own side, and the origin of its output; a side that is left open is 1920 wide
/// or 1080 high. The scale stays, and so does every other overlay.
pub proof fn configure_gives_the_size_asked_for(
    m: Model,
    id: u32,
    surface: u32,
    size: (u32, u32),
    info: Option<OutputInfo>,
)
    requires
        m.wf(),
        m.outputs.contains_key(id),
        m.outputs[id].surface == surface,
    ensures
        ({
            let after = m.configured(surface, size, info);
            let before = m.outputs[id];
            let ctx = after.outputs[id];
            &&& after.outputs.contains_key(id)
            &&& size.0 > 0 ==> ctx.logical_width == size.0
            &&& size.0 == 0 ==> ctx.logical_width == 1920
            &&& size.1 > 0 ==> ctx.logical_height == size.1
            &&& size.1 == 0 ==> ctx.logical_height == 1080
            &&& ctx.origin == origin_in(info)
            &&& !ctx.first_configure
            &&& ctx.surface == before.surface
            &&& ctx.scale == before.scale
            &&& ctx.viewport == before.viewport
            &&& ctx.renderer == before.renderer
            &&& size.0 > 0 && size.1 > 0 ==> {
                &&& ctx.physical().0 == extent(size.0, before.scale)
                &&& ctx.physical().1 == extent(size.1, before.scale)
                &&& before.scale == Scale::Whole(1) ==> ctx.physical() == size
                &&& ctx.viewport && size.0 <= 0x7fff_ffff && size.1 <= 0x7fff_ffff
                    ==> ctx.destination() == Some((size.0 as i32, size.1 as i32))
            }
            &&& same_elsewhere(m, after, id)
            &&& after.mode == m.mode
            &&& after.routes == m.routes
            &&& after.exit == m.exit
        }),
{
    owner_is_unique(m, id, surface);
    sides_are_not_mixed_up(m.configured(surface, size, info).outputs[id]);
}

/// A configure or a close of a surface that is no overlay's changes nothing.
pub proof fn unknown_surfaces_change_nothing(
    m: Model,
    surface: u32,
    size: (u32, u32),
    info: Option<OutputInfo>,
)
    requires
        forall|id: u32| #[trigger]
            m.outputs.contains_key(id) ==> m.outputs[id].surface != surface,
    ensures
        m.configured(surface, size, info) == m,
        m.closed(surface) == m,
{
}

/// A scale event is followed by every overlay that it is for, with a renderer or
/// without, up or down: the number that it gives is the scale afterwards. Where that
/// is another number than before, a step is asked for, with the buffer scale, the
/// size of the buffer at the new scale if there is a renderer, and the viewport; and
/// only there. Nothing else changes, in this overlay or in any other.
pub proof fn scale_events_are_followed(m: Model, id: u32, scale: Scale)
    requires
        m.outputs.contains_key(id),
    ensures
        ({
            let before = m.outputs[id];
            let after = m.rescaled(id, scale);
            let ctx = after.outputs[id];
            let step = m.rescale_step(id, scale);
            &&& after.outputs.contains_key(id)
            &&& ctx.scale.in_120ths() == scale.in_120ths()
            &&& before.scale.in_120ths() != scale.in_120ths() ==> ctx.scale == scale
            &&& ctx.surface == before.surface
            &&& ctx.origin == before.origin
            &&& ctx.logical_width == before.logical_width
            &&& ctx.logical_height == before.logical_height
            &&& ctx.viewport == before.viewport
            &&& ctx.first_configure == before.first_configure
            &&& ctx.renderer == before.renderer
            &&& step is Some <==> before.scale.in_120ths() != scale.in_120ths()
            &&& step is Some ==> {
                &&& step->0.resize is Some <==> before.renderer
                &&& before.renderer ==> {
                    &&& (step->0.resize->0).0 == extent(before.logical_width, scale)
                    &&& (step->0.resize->0).1 == extent(before.logical_height, scale)
                }
                &&& step->0.viewport is Some <==> before.viewport
                &&& before.viewport ==> {
                    &&& ((step->0.viewport->0).0 as int) % 0x1_0000_0000 == before.logical_width
                    &&& ((step->0.viewport->0).1 as int) % 0x1_0000_0000 == before.logical_height
                }
                &&& m.mode is Fractional ==> step->0.buffer_scale is None
                &&& m.mode is IntegerOrNone ==> {
                    &&& scale matches Scale::Whole(factor) ==> step->0.buffer_scale == Some(factor)
                    &&& step->0.buffer_scale matches Some(factor) ==> 120 * factor
                        == scale.in_120ths()
                }
            }
            &&& same_elsewhere(m, after, id)
            &&& after.mode == m.mode
            &&& after.routes == m.routes
            &&& after.exit == m.exit
        }),
{
    sides_are_not_mixed_up(m.outputs[id]);
    sides_are_not_mixed_up(m.rescaled(id, scale).outputs[id]);
    signed_sides_keep_their_bits(m.outputs[id].logical_width);
    signed_sides_keep_their_bits(m.outputs[id].logical_height);
}

/// The latest of two scales counts, whatever the first one was.
pub proof fn latest_scale_counts(m: Model, id: u32, first: Scale, second: Scale)
    requires
        m.outputs.contains_key(id),
    ensures
        m.rescaled(id, first).rescaled(id, second).outputs[id].scale.in_120ths()
            == second.in_120ths(),
        m.rescaled(id, first).rescaled(id, second).outputs[id].physical()
            == m.rescaled(id, second).outputs[id].physical(),
{
    scale_events_are_followed(m, id, first);
    scale_events_are_followed(m, id, second);
    scale_events_are_followed(m.rescaled(id, first), id, second);
    sides_are_not_mixed_up(m.rescaled(id, first).rescaled(id, second).outputs[id]);
    sides_are_not_mixed_up(m.rescaled(id, second).outputs[id]);
}

/// A scale event for an output that has no overlay changes nothing and asks for
/// nothing.
pub proof fn unknown_outputs_are_not_scaled(m: Model, id: u32, scale: Scale)
    requires
        !m.outputs.contains_key(id),
    ensures
        m.rescaled(id, scale) == m,
        m.rescale_step(id, scale) is None,
{
}

/// News of an output takes its overlay to the origin that they name, and to the
/// scale that they name where scales are whole; where they are fractional, the scale
/// stays. Nothing else changes, in this overlay or in any other.
pub proof fn news_of_an_output_is_followed(m: Model, id: u32, info: Option<OutputInfo>)
    ensures
        ({
            let after = m.updated(id, info);
            let moved = m.moved(id, origin_in(info));
            &&& after.outputs.contains_key(id) == m.outputs.contains_key(id)
            &&& m.outputs.contains_key(id) ==> {
                let before = m.outputs[id];
                let ctx = after.outputs[id];
                &&& ctx.origin == origin_in(info)
                &&& m.mode is IntegerOrNone ==> ctx.scale.in_120ths() == scale_in(info).in_120ths()
                &&& m.mode is Fractional ==> ctx.scale == before.scale
                &&& ctx.surface == before.surface
                &&& ctx.logical_width == before.logical_width
                &&& ctx.logical_height == before.logical_height
                &&& ctx.viewport == before.viewport
                &&& ctx.first_configure == before.first_configure
                &&& ctx.renderer == before.renderer
                &&& moved.rescale_step(id, scale_in(info)) == m.rescale_step(id, scale_in(info))
            }
            &&& same_elsewhere(m, after, id)
            &&& after.mode == m.mode
            &&& after.routes == m.routes
            &&& after.exit == m.exit
        }),
{
}

/// An output that is added has a surface of its own, at the place and the scale
/// that are known of it, without a size and without a renderer until it is
/// configured. Its fractional-scale object leads to it, and every other object and
/// overlay is as it was.
pub proof fn added_outputs_start_afresh(
    m: Model,
    id: u32,
    surface: u32,
    fractional: Option<u32>,
    info: Option<OutputInfo>,
)
    requires
        !m.outputs.contains_key(id),
    ensures
        ({
            let after = m.added(id, surface, fractional, info);
            let ctx = after.outputs[id];
            &&& after.outputs.contains_key(id)
            &&& ctx.surface == surface
            &&& ctx.origin == origin_in(info)
            &&& ctx.scale == scale_in(info)
            &&& ctx.logical_width == 0
            &&& ctx.logical_height == 0
            &&& ctx.viewport == (m.mode is Fractional)
            &&& ctx.first_configure
            &&& !ctx.renderer
            &&& same_elsewhere(m, after, id)
            &&& fractional is None ==> after.routes == m.routes
            &&& fractional matches Some(object) ==> {
                &&& after.routes.contains_key(object)
                &&& after.routes[object] == id
                &&& forall|k: u32|
                    k != object ==> {
                        &&& #[trigger] after.routes.contains_key(k) == m.routes.contains_key(k)
                        &&& m.routes.contains_key(k) ==> after.routes[k] == m.routes[k]
                    }
            }
            &&& after.mode == m.mode
            &&& after.exit == m.exit
        }),
{
}

/// An output that has a surface keeps its overlay when it is added again.
pub proof fn known_outputs_are_left_alone(
    m: Model,
    id: u32,
    surface: u32,
    fractional: Option<u32>,
    info: Option<OutputInfo>,
)
    requires
        m.outputs.contains_key(id),
    ensures
        m.added(id, surface, fractional, info) == m,
{
}

/// An output that goes away takes its overlay and what leads to it along, and
/// nothing else: neither another overlay, nor another object, nor the program.
pub proof fn removal_spares_the_others(m: Model, id: u32)
    requires
        m.outputs.contains_key(id),
    ensures
        ({
            let after = m.removed(id);
            &&& !after.outputs.contains_key(id)
            &&& same_elsewhere(m, after, id)
            &&& forall|k: u32| #[trigger]
                after.routes.contains_key(k) <==> m.routes.contains_key(k) && m.routes[k] != id
            &&& forall|k: u32| #[trigger]
                after.routes.contains_key(k) ==> after.routes[k] == m.routes[k]
            &&& after.mode == m.mode
            &&& after.exit == m.exit
        }),
{
}

/// A surface that is closed takes its overlay and what leads to it along, and
/// nothing else; the program ends with the last of them, and goes on otherwise as it
/// did.
pub proof fn closing_removes_one_overlay(m: Model, id: u32, surface: u32)
    requires
        m.wf(),
        m.outputs.contains_key(id),
        m.outputs[id].surface == surface,
    ensures
        ({
            let after = m.closed(surface);
            &&& !after.outputs.contains_key(id)
            &&& same_elsewhere(m, after, id)
            &&& forall|k: u32| #[trigger]
                after.routes.contains_key(k) <==> m.routes.contains_key(k) && m.routes[k] != id
            &&& forall|k: u32| #[trigger]
                after.routes.contains_key(k) ==> after.routes[k] == m.routes[k]
            &&& after.mode == m.mode
            &&& after.exit <==> m.exit || forall|other: u32| #[trigger]
                m.outputs.contains_key(other) ==> other == id
        }),
{
    owner_is_unique(m, id, surface);
    if !m.exit {
        closing_the_last_surface_exits(m, id, surface);
    }
}

/// A renderer that was made is all that an overlay gains by it; one that could not
/// be made costs the overlay, and the program where there is no other. Every other
/// overlay stays as it was.
pub proof fn renderers_change_one_overlay(m: Model, id: u32)
    requires
        m.outputs.contains_key(id),
    ensures
        ({
            let before = m.outputs[id];
            let with = m.renderer_made(id, true);
            let ctx = with.outputs[id];
            let without = m.renderer_made(id, false);
            &&& with.outputs.contains_key(id)
            &&& ctx.renderer
            &&& ctx.surface == before.surface
            &&& ctx.origin == before.origin
            &&& ctx.logical_width == before.logical_width
            &&& ctx.logical_height == before.logical_height
            &&& ctx.scale == before.scale
            &&& ctx.viewport == before.viewport
            &&& ctx.first_configure == before.first_configure
            &&& same_elsewhere(m, with, id)
            &&& with.mode == m.mode && with.routes == m.routes && with.exit == m.exit
            &&& !without.outputs.contains_key(id)
            &&& same_elsewhere(m, without, id)
            &&& without.mode == m.mode && without.routes == m.routes
            &&& without.exit <==> m.exit || forall|other: u32| #[trigger]
                m.outputs.contains_key(other) ==> other == id
        }),
{
    if !m.exit {
        giving_up_the_last_overlay_exits(m, id);
    }
}

/// A frame changes no overlay, and ends the program only where memory ran out.
pub proof fn frames_change_no_overlay(m: Model, outcome: FrameOutcome)
    ensures
        ({
            let after = m.frame_drawn(outcome);
            &&& after.outputs == m.outputs
            &&& after.routes == m.routes
            &&& after.mode == m.mode
            &&& after.exit <==> m.exit || outcome == FrameOutcome::OutOfMemory
        }),
{
}

/// The program starts without an overlay, and is not to end.
pub proof fn there_is_no_overlay_at_first(mode: HiDpiMode, id: u32)
    ensures
        Model::start(mode).mode == mode,
        !Model::start(mode).outputs.contains_key(id),
        !Model::start(mode).routes.contains_key(id),
        !Model::start(mode).exit,
{
}

} // verus!
