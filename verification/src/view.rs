use vstd::prelude::*;

verus! {

/// The number of milliseconds over which frames are counted for the frame
/// rate.
pub const FPS_WINDOW_MS: u128 = 1000;

/// What the owner of a `Graphics` does for one frame request.
#[derive(Clone, Copy, Debug, PartialEq, Eq, Structural)]
pub enum FrameAction {
    /// Nothing is drawn: the view is suspended and the frame and frame-rate
    /// timers restart.
    Suspend,
    /// A frame is drawn. Where `restart_fps_timer` holds, the frame-rate
    /// window is over and its timer restarts. The delta timer always restarts.
    Render { restart_fps_timer: bool },
}

/// What the surface gave when asked for the texture of the next frame.
#[derive(Clone, Copy, Debug, PartialEq, Eq, Structural)]
pub enum SurfaceStatus {
    Success,
    Suboptimal,
    Timeout,
    Occluded,
    Outdated,
    Lost,
    Validation,
}

/// A surface status that still gives a texture to draw into.
pub open spec fn surface_usable(status: SurfaceStatus) -> bool {
    status is Success || status is Suboptimal
}

/// Whether a frame can be drawn with the texture the surface gave; every
/// other status is fatal for the view.
pub fn surface_texture_usable(status: SurfaceStatus) -> (ok: bool)
    ensures
        ok == surface_usable(status),
{
    match status {
        SurfaceStatus::Success => true,
        SurfaceStatus::Suboptimal => true,
        _ => false,
    }
}

/// The frame scheduling of a graphics view: whether it is suspended, whether
/// it was woken up for a redraw, the frame rate of the last full window and
/// the frames drawn in the current window. `gpu` holds what the owner draws
/// with.
pub struct Graphics<G> {
    id: u64,
    suspend: bool,
    wake: bool,
    fps: u32,
    rendered_frames: u32,
    gpu: G,
}

impl<G> Graphics<G> {
    pub closed spec fn spec_id(&self) -> u64 {
        self.id
    }

    pub closed spec fn gpu_state(&self) -> G {
        self.gpu
    }

    pub closed spec fn suspended(&self) -> bool {
        self.suspend
    }

    pub closed spec fn woken(&self) -> bool {
        self.wake
    }

    pub closed spec fn spec_fps(&self) -> u32 {
        self.fps
    }

    pub closed spec fn frames(&self) -> u32 {
        self.rendered_frames
    }

    /// Whether a frame is drawn: always before a renderer exists
    /// (`renderer_wants` is `None`), else when the renderer asks for it or the
    /// view was woken.
    pub open spec fn spec_should_render(&self, renderer_wants: Option<bool>) -> bool {
        match renderer_wants {
            None => true,
            Some(wants) => wants || self.woken(),
        }
    }

    /// The decision `render` takes on a frame request.
    pub open spec fn frame_action(&self, renderer_wants: bool, fps_elapsed_ms: u128) -> FrameAction {
        if !renderer_wants && !self.woken() {
            FrameAction::Suspend
        } else {
            FrameAction::Render { restart_fps_timer: fps_elapsed_ms >= FPS_WINDOW_MS }
        }
    }

    /// The scheduling state of a new view: running, not woken, no frame yet.
    pub fn new(id: u64, gpu: G) -> (g: Self)
        ensures
            g.spec_id() == id,
            g.gpu_state() == gpu,
            !g.suspended(),
            !g.woken(),
            g.spec_fps() == 0,
            g.frames() == 0,
    {
        Graphics { id, suspend: false, wake: false, fps: 0, rendered_frames: 0, gpu }
    }

    pub fn id(&self) -> (id: u64)
        ensures
            id == self.spec_id(),
    {
        self.id
    }

    /// What the owner draws with.
    pub fn gpu(&self) -> (gpu: &G)
        ensures
            *gpu == self.gpu_state(),
    {
        &self.gpu
    }

    /// What the owner draws with; the scheduling state stays as it is.
    pub fn gpu_mut(&mut self) -> (gpu: &mut G)
        ensures
            *gpu == old(self).gpu_state(),
            final(self).gpu_state() == *final(gpu),
            final(self).spec_id() == old(self).spec_id(),
            final(self).suspended() == old(self).suspended(),
            final(self).woken() == old(self).woken(),
            final(self).spec_fps() == old(self).spec_fps(),
            final(self).frames() == old(self).frames(),
    {
        &mut self.gpu
    }

    pub fn is_suspended(&self) -> (b: bool)
        ensures
            b == self.suspended(),
    {
        self.suspend
    }

    pub fn is_woken(&self) -> (b: bool)
        ensures
            b == self.woken(),
    {
        self.wake
    }

    /// The frame rate measured over the last full window.
    pub fn fps(&self) -> (n: u32)
        ensures
            n == self.spec_fps(),
    {
        self.fps
    }

    /// The frames drawn in the current window.
    pub fn rendered_frames(&self) -> (n: u32)
        ensures
            n == self.frames(),
    {
        self.rendered_frames
    }

    /// Whether the next frame request draws (see `spec_should_render`).
    pub fn should_render(&self, renderer_wants: Option<bool>) -> (b: bool)
        ensures
            b == self.spec_should_render(renderer_wants),
    {
        match renderer_wants {
            None => true,
            Some(wants) => wants || self.wake,
        }
    }

    /// Decides one frame request. When the renderer does not ask for a frame
    /// and the view was not woken, the view suspends and the frame count
    /// restarts. Otherwise the wake-up is consumed, the view runs, and when
    /// the frame-rate window (`fps_elapsed_ms` since its timer started) is
    /// over, the frame rate becomes the frames counted in it and the count
    /// restarts.
    pub fn render(&mut self, renderer_wants: bool, fps_elapsed_ms: u128) -> (action: FrameAction)
        ensures
            final(self).spec_id() == old(self).spec_id(),
            final(self).gpu_state() == old(self).gpu_state(),
            action == old(self).frame_action(renderer_wants, fps_elapsed_ms),
            action is Render ==> action == (FrameAction::Render {
                restart_fps_timer: fps_elapsed_ms >= FPS_WINDOW_MS,
            }),
            !renderer_wants && !old(self).woken() ==> {
                &&& final(self).suspended()
                &&& !final(self).woken()
                &&& final(self).frames() == 0
                &&& final(self).spec_fps() == old(self).spec_fps()
            },
            renderer_wants || old(self).woken() ==> {
                &&& !final(self).suspended()
                &&& !final(self).woken()
                &&& fps_elapsed_ms >= FPS_WINDOW_MS ==> {
                    &&& final(self).spec_fps() == old(self).frames()
                    &&& final(self).frames() == 0
                }
                &&& fps_elapsed_ms < FPS_WINDOW_MS ==> {
                    &&& final(self).spec_fps() == old(self).spec_fps()
                    &&& final(self).frames() == old(self).frames()
                }
            },
    {
        if !renderer_wants && !self.wake {
            self.suspend = true;
            self.rendered_frames = 0;
            return FrameAction::Suspend;
        }
        if self.wake {
            self.wake = false;
        }
        self.suspend = false;
        let restart_fps_timer = fps_elapsed_ms >= FPS_WINDOW_MS;
        if restart_fps_timer {
            self.fps = self.rendered_frames;
            self.rendered_frames = 0;
        }
        FrameAction::Render { restart_fps_timer }
    }

    /// Counts a frame that was drawn and presented.
    pub fn frame_presented(&mut self)
        requires
            old(self).frames() < u32::MAX,
        ensures
            final(self).frames() == old(self).frames() + 1,
            final(self).suspended() == old(self).suspended(),
            final(self).woken() == old(self).woken(),
            final(self).spec_fps() == old(self).spec_fps(),
            final(self).spec_id() == old(self).spec_id(),
            final(self).gpu_state() == old(self).gpu_state(),
    {
        self.rendered_frames = self.rendered_frames + 1;
    }

    /// Decides a change of the view's size: nothing happens when the size is
    /// the current one (`same_size`); a new size with both sides positive is
    /// taken, which wakes the view; any other size is ignored. Returns
    /// whether the surface must be reconfigured to the new size.
    pub fn set_view_parameters(&mut self, same_size: bool, positive: bool) -> (resize: bool)
        ensures
            resize == (!same_size && positive),
            final(self).woken() == (old(self).woken() || resize),
            final(self).suspended() == old(self).suspended(),
            final(self).spec_fps() == old(self).spec_fps(),
            final(self).frames() == old(self).frames(),
            final(self).spec_id() == old(self).spec_id(),
            final(self).gpu_state() == old(self).gpu_state(),
    {
        if same_size {
            return false;
        }
        if positive {
            self.wake = true;
            true
        } else {
            false
        }
    }
}

/// Law: with a renderer in place, `should_render` tells exactly whether
/// `render` draws a frame rather than suspending the view.
pub proof fn law_should_render_predicts_render<G>(g: Graphics<G>, wants: bool, fps_elapsed_ms: u128)
    ensures
        g.spec_should_render(Some(wants)) <==> g.frame_action(wants, fps_elapsed_ms) is Render,
{
}

/// Law: a view that was woken (as `set_view_parameters` does on a new
/// positive size) draws its next frame whatever its renderer asks.
pub proof fn law_woken_view_draws<G>(g: Graphics<G>, wants: bool, fps_elapsed_ms: u128)
    requires
        g.woken(),
    ensures
        g.spec_should_render(Some(wants)),
        g.frame_action(wants, fps_elapsed_ms) is Render,
{
}

/// Law: when a frame is drawn, for whatever reason (the renderer asked or
/// the view was woken), the owner restarts the frame-rate timer exactly when
/// the frame-rate window is over.
pub proof fn law_drawn_frame_restarts_fps_timer_with_window<G>(
    g: Graphics<G>,
    wants: bool,
    fps_elapsed_ms: u128,
)
    ensures
        g.frame_action(wants, fps_elapsed_ms) is Render ==> g.frame_action(wants, fps_elapsed_ms)
            == (FrameAction::Render { restart_fps_timer: fps_elapsed_ms >= FPS_WINDOW_MS }),
{
}

} // verus!
